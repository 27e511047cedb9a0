//! The JSON envelopes every command answers with, and the HATEOAS
//! `next_actions` they carry.
use vstd::prelude::*;
use crate::json::{Json, JsonV, obj_insert};
use crate::text::{owned, views};

verus! {

/// Typed process exit codes, one per failure class, so an agent can decide
/// whether to retry, re-authenticate or fix its arguments from the status
/// alone. All of them lie in the 0–255 range of a process status.
pub struct ExitCode;

impl ExitCode {
    /// Command succeeded.
    pub const SUCCESS: i32 = 0;
    /// Generic, unclassified failure (the default for handler errors).
    pub const ERROR: i32 = 1;
    /// Bad invocation: unknown command, bad flag, missing argument.
    pub const USAGE: i32 = 2;
    /// A requested resource does not exist.
    pub const NOT_FOUND: i32 = 3;
    /// Authentication or authorization failure.
    pub const AUTH: i32 = 4;
    /// An upstream/API call failed.
    pub const API: i32 = 5;
    /// The caller is being rate limited and should back off.
    pub const RATE_LIMITED: i32 = 7;
}

/// The low 8 bits of `code`: what a Unix process status keeps of it, so the
/// serialized `exit_code` equals what the shell sees in `$?`.
pub open spec fn masked(code: int) -> int {
    code % 256
}

/// Masks an exit code into the 0–255 range of a process status.
pub fn normalize_exit_code(code: i32) -> (r: i32)
    ensures
        r == masked(code as int),
        0 <= r <= 255,
        0 <= code <= 255 ==> r == code,
{
    let r = code & 0xff;
    assert(r == code % 256 && 0 <= r <= 255) by (bit_vector)
        requires
            r == code & 0xff,
    ;
    r
}

/// Masking twice is masking once.
pub proof fn law_mask_idempotent(code: int)
    ensures
        masked(masked(code)) == masked(code),
        0 <= masked(code) < 256,
{
}

// ---------------------------------------------------------------------------
// Action templates
// ---------------------------------------------------------------------------

pub open spec fn opt_str(o: Option<String>) -> Option<Seq<char>> {
    match o {
        Some(s) => Some(s@),
        None => None,
    }
}

pub open spec fn opt_json(o: Option<Json>) -> Option<JsonV> {
    match o {
        Some(j) => Some(j@),
        None => None,
    }
}

pub open spec fn opt_strs(o: Option<Vec<String>>) -> Option<Seq<Seq<char>>> {
    match o {
        Some(v) => Some(views(v@)),
        None => None,
    }
}

/// Model of an [`ActionParam`].
pub ghost struct ActionParamV {
    pub description: Option<Seq<char>>,
    pub value: Option<JsonV>,
    pub default: Option<JsonV>,
    pub enum_values: Option<Seq<Seq<char>>>,
    pub required: Option<bool>,
}

/// Metadata for a templated `next_action` parameter.
#[derive(Debug, PartialEq)]
pub struct ActionParam {
    pub description: Option<String>,
    pub value: Option<Json>,
    pub default: Option<Json>,
    pub enum_values: Option<Vec<String>>,
    pub required: Option<bool>,
}

impl View for ActionParam {
    type V = ActionParamV;

    open spec fn view(&self) -> ActionParamV {
        ActionParamV {
            description: opt_str(self.description),
            value: opt_json(self.value),
            default: opt_json(self.default),
            enum_values: opt_strs(self.enum_values),
            required: self.required,
        }
    }
}

/// An action parameter with nothing set.
pub open spec fn empty_param() -> ActionParamV {
    ActionParamV { description: None, value: None, default: None, enum_values: None, required: None }
}

fn clone_strings(v: &Vec<String>) -> (r: Vec<String>)
    ensures
        views(r@) == views(v@),
{
    let mut r: Vec<String> = Vec::new();
    let mut i: usize = 0;
    while i < v.len()
        invariant
            i <= v.len(),
            r@.len() == i,
            forall|q: int| 0 <= q < i ==> #[trigger] r@[q]@ == v@[q]@,
        decreases v.len() - i,
    {
        r.push(v[i].clone());
        i = i + 1;
    }
    assert(views(r@) =~= views(v@));
    r
}

impl ActionParam {
    pub fn new() -> (r: ActionParam)
        ensures
            r@ == empty_param(),
    {
        ActionParam { description: None, value: None, default: None, enum_values: None, required: None }
    }

    pub fn description(self, description: &str) -> (r: ActionParam)
        ensures
            r@ == (ActionParamV { description: Some(description@), ..self@ }),
    {
        ActionParam { description: Some(owned(description)), ..self }
    }

    pub fn value(self, value: Json) -> (r: ActionParam)
        ensures
            r@ == (ActionParamV { value: Some(value@), ..self@ }),
    {
        ActionParam { value: Some(value), ..self }
    }

    pub fn default(self, value: Json) -> (r: ActionParam)
        ensures
            r@ == (ActionParamV { default: Some(value@), ..self@ }),
    {
        ActionParam { default: Some(value), ..self }
    }

    pub fn enum_values(self, values: Vec<String>) -> (r: ActionParam)
        ensures
            r@ == (ActionParamV { enum_values: Some(views(values@)), ..self@ }),
    {
        ActionParam { enum_values: Some(values), ..self }
    }

    pub fn required(self, required: bool) -> (r: ActionParam)
        ensures
            r@ == (ActionParamV { required: Some(required), ..self@ }),
    {
        ActionParam { required: Some(required), ..self }
    }

    /// A copy of this parameter.
    pub fn duplicate(&self) -> (r: ActionParam)
        ensures
            r@ == self@,
    {
        ActionParam {
            description: match &self.description {
                Some(s) => Some(s.clone()),
                None => None,
            },
            value: match &self.value {
                Some(j) => Some(j.deep_clone()),
                None => None,
            },
            default: match &self.default {
                Some(j) => Some(j.deep_clone()),
                None => None,
            },
            enum_values: match &self.enum_values {
                Some(v) => Some(clone_strings(v)),
                None => None,
            },
            required: self.required,
        }
    }
}


/// Models of named parameters.
pub open spec fn params_view(e: Seq<(String, ActionParam)>) -> Seq<(Seq<char>, ActionParamV)> {
    e.map_values(|p: (String, ActionParam)| (p.0@, p.1@))
}

/// Sets parameter `k`, keeping the parameters ordered by name.
fn params_insert(e: &mut Vec<(String, ActionParam)>, k: String, v: ActionParam)
    ensures
        params_view(final(e)@) == obj_insert(params_view(old(e)@), k@, v@),
{
    let ghost m = params_view(e@);
    let ghost kv = k@;
    let ghost vv = v@;
    proof {
        assert(m.skip(0) =~= m);
        assert(m.take(0) + obj_insert(m, kv, vv) =~= obj_insert(m, kv, vv));
    }
    let mut i: usize = 0;
    while i < e.len()
        invariant
            *e == *old(e),
            m == params_view(old(e)@),
            kv == k@,
            vv == v@,
            i <= e.len(),
            obj_insert(m, kv, vv) == m.take(i as int) + obj_insert(m.skip(i as int), kv, vv),
        decreases e.len() - i,
    {
        proof {
            assert(m.skip(i as int).drop_first() =~= m.skip(i + 1));
            assert(m.skip(i as int)[0] == m[i as int]);
        }
        if crate::text::str_eq(e[i].0.as_str(), k.as_str()) {
            e.set(i, (k, v));
            proof {
                assert(params_view(e@) =~= m.update(i as int, (kv, vv)));
                assert(m.take(i as int) + m.skip(i as int).update(0, (kv, vv)) =~= m.update(
                    i as int,
                    (kv, vv),
                ));
            }
            return;
        }
        if crate::json::key_less(k.as_str(), e[i].0.as_str()) {
            e.insert(i, (k, v));
            proof {
                assert(params_view(e@) =~= m.take(i as int) + (seq![(kv, vv)] + m.skip(i as int)));
            }
            return;
        }
        proof {
            assert(m.take(i as int) + (seq![m[i as int]] + obj_insert(m.skip(i + 1), kv, vv))
                =~= m.take(i + 1) + obj_insert(m.skip(i + 1), kv, vv));
        }
        i = i + 1;
    }
    proof {
        assert(m.take(i as int) =~= m);
        assert(m.skip(i as int) =~= Seq::<(Seq<char>, ActionParamV)>::empty());
    }
    e.push((k, v));
    proof {
        assert(params_view(e@) =~= m.push((kv, vv)));
    }
}

/// Model of a [`NextAction`].
pub ghost struct NextActionV {
    pub command: Seq<char>,
    pub description: Seq<char>,
    pub params: Option<Seq<(Seq<char>, ActionParamV)>>,
}

/// HATEOAS action template that tells an agent what to run next.
#[derive(Debug, PartialEq)]
pub struct NextAction {
    pub command: String,
    pub description: String,
    pub params: Option<Vec<(String, ActionParam)>>,
}

impl View for NextAction {
    type V = NextActionV;

    open spec fn view(&self) -> NextActionV {
        NextActionV {
            command: self.command@,
            description: self.description@,
            params: match self.params {
                Some(p) => Some(params_view(p@)),
                None => None,
            },
        }
    }
}

/// Models of a list of actions.
pub open spec fn actions_view(v: Seq<NextAction>) -> Seq<NextActionV> {
    v.map_values(|a: NextAction| a@)
}

impl NextAction {
    pub fn new(command: &str, description: &str) -> (r: NextAction)
        ensures
            r@ == (NextActionV { command: command@, description: description@, params: None }),
    {
        NextAction { command: owned(command), description: owned(description), params: None }
    }

    /// Adds (or replaces) the parameter `name`.
    pub fn with_param(self, name: &str, param: ActionParam) -> (r: NextAction)
        ensures
            r@.command == self@.command,
            r@.description == self@.description,
            r@.params == Some(
                obj_insert(
                    match self@.params {
                        Some(p) => p,
                        None => Seq::empty(),
                    },
                    name@,
                    param@,
                ),
            ),
    {
        let NextAction { command, description, params } = self;
        let mut p = match params {
            Some(p) => p,
            None => Vec::new(),
        };
        proof {
            assert(params_view(Seq::<(String, ActionParam)>::empty()) =~= Seq::empty());
        }
        params_insert(&mut p, owned(name), param);
        NextAction { command, description, params: Some(p) }
    }

    /// A copy of this action.
    pub fn duplicate(&self) -> (r: NextAction)
        ensures
            r@ == self@,
    {
        let params = match &self.params {
            None => None,
            Some(p) => {
                let mut out: Vec<(String, ActionParam)> = Vec::new();
                let mut i: usize = 0;
                while i < p.len()
                    invariant
                        i <= p.len(),
                        out@.len() == i,
                        forall|q: int| 0 <= q < i ==> #[trigger] out@[q].0@ == p@[q].0@ && out@[q].1@ == p@[q].1@,
                    decreases p.len() - i,
                {
                    out.push((p[i].0.clone(), p[i].1.duplicate()));
                    i = i + 1;
                }
                assert(params_view(out@) =~= params_view(p@));
                Some(out)
            },
        };
        NextAction {
            command: self.command.clone(),
            description: self.description.clone(),
            params,
        }
    }
}

/// Copies a list of actions.
pub fn duplicate_actions(v: &Vec<NextAction>) -> (r: Vec<NextAction>)
    ensures
        actions_view(r@) == actions_view(v@),
{
    let mut r: Vec<NextAction> = Vec::new();
    let mut i: usize = 0;
    while i < v.len()
        invariant
            i <= v.len(),
            r@.len() == i,
            forall|q: int| 0 <= q < i ==> #[trigger] r@[q]@ == v@[q]@,
        decreases v.len() - i,
    {
        r.push(v[i].duplicate());
        i = i + 1;
    }
    assert(actions_view(r@) =~= actions_view(v@));
    r
}

// ---------------------------------------------------------------------------
// Envelopes
// ---------------------------------------------------------------------------

/// Machine-readable error payload.
#[derive(Clone, Debug, PartialEq, Eq)]
pub struct ErrorBody {
    pub message: String,
    pub code: String,
    pub retryable: bool,
}

impl ErrorBody {
    pub fn new(message: &str, code: &str) -> (r: ErrorBody)
        ensures
            r.message@ == message@,
            r.code@ == code@,
            !r.retryable,
    {
        ErrorBody { message: owned(message), code: owned(code), retryable: false }
    }

    pub fn retryable(self, retryable: bool) -> (r: ErrorBody)
        ensures
            r.message@ == self.message@,
            r.code@ == self.code@,
            r.retryable == retryable,
    {
        ErrorBody { retryable, ..self }
    }
}

/// Success response envelope; it always serializes with `"ok": true`.
#[derive(Debug, PartialEq)]
pub struct SuccessEnvelope {
    pub command: String,
    /// Epoch seconds, rendered as RFC 3339 UTC.
    pub timestamp: u64,
    pub schema_version: Option<String>,
    pub result: Json,
    pub next_actions: Vec<NextAction>,
    /// Process exit code, [`ExitCode::SUCCESS`] unless overridden; always
    /// within 0–255.
    pub exit_code: i32,
}

impl SuccessEnvelope {
    /// A success envelope stamped with `timestamp` (epoch seconds).
    pub fn new(command: &str, result: Json, next_actions: Vec<NextAction>, timestamp: u64) -> (r:
        SuccessEnvelope)
        ensures
            r.command@ == command@,
            r.timestamp == timestamp,
            r.schema_version is None,
            r.result@ == result@,
            actions_view(r.next_actions@) == actions_view(next_actions@),
            r.exit_code == ExitCode::SUCCESS,
    {
        SuccessEnvelope {
            command: owned(command),
            timestamp,
            schema_version: None,
            result,
            next_actions,
            exit_code: ExitCode::SUCCESS,
        }
    }

    pub fn schema_version(self, version: &str) -> (r: SuccessEnvelope)
        ensures
            r.command@ == self.command@,
            r.timestamp == self.timestamp,
            opt_str(r.schema_version) == Some(version@),
            r.result@ == self.result@,
            actions_view(r.next_actions@) == actions_view(self.next_actions@),
            r.exit_code == self.exit_code,
    {
        SuccessEnvelope { schema_version: Some(owned(version)), ..self }
    }

    /// Overrides the exit code, masked to 0–255.
    pub fn exit_code(self, code: i32) -> (r: SuccessEnvelope)
        ensures
            r.command@ == self.command@,
            r.timestamp == self.timestamp,
            opt_str(r.schema_version) == opt_str(self.schema_version),
            r.result@ == self.result@,
            actions_view(r.next_actions@) == actions_view(self.next_actions@),
            r.exit_code == masked(code as int),
    {
        SuccessEnvelope { exit_code: normalize_exit_code(code), ..self }
    }
}

/// Error response envelope; it always serializes with `"ok": false`.
#[derive(Debug, PartialEq)]
pub struct ErrorEnvelope {
    pub command: String,
    pub timestamp: u64,
    pub schema_version: Option<String>,
    pub error: ErrorBody,
    pub fix: String,
    pub next_actions: Vec<NextAction>,
    /// Process exit code, [`ExitCode::ERROR`] unless overridden; always
    /// within 0–255.
    pub exit_code: i32,
}

impl ErrorEnvelope {
    /// An error envelope stamped with `timestamp` (epoch seconds).
    pub fn new(
        command: &str,
        message: &str,
        code: &str,
        fix: &str,
        next_actions: Vec<NextAction>,
        timestamp: u64,
    ) -> (r: ErrorEnvelope)
        ensures
            r.command@ == command@,
            r.timestamp == timestamp,
            r.schema_version is None,
            r.error.message@ == message@,
            r.error.code@ == code@,
            !r.error.retryable,
            r.fix@ == fix@,
            actions_view(r.next_actions@) == actions_view(next_actions@),
            r.exit_code == ExitCode::ERROR,
    {
        ErrorEnvelope {
            command: owned(command),
            timestamp,
            schema_version: None,
            error: ErrorBody::new(message, code),
            fix: owned(fix),
            next_actions,
            exit_code: ExitCode::ERROR,
        }
    }

    pub fn retryable(self, retryable: bool) -> (r: ErrorEnvelope)
        ensures
            r.command@ == self.command@,
            r.timestamp == self.timestamp,
            opt_str(r.schema_version) == opt_str(self.schema_version),
            r.error.message@ == self.error.message@,
            r.error.code@ == self.error.code@,
            r.error.retryable == retryable,
            r.fix@ == self.fix@,
            actions_view(r.next_actions@) == actions_view(self.next_actions@),
            r.exit_code == self.exit_code,
    {
        let ErrorEnvelope { command, timestamp, schema_version, error, fix, next_actions, exit_code } =
            self;
        ErrorEnvelope {
            command,
            timestamp,
            schema_version,
            error: error.retryable(retryable),
            fix,
            next_actions,
            exit_code,
        }
    }

    pub fn schema_version(self, version: &str) -> (r: ErrorEnvelope)
        ensures
            r.command@ == self.command@,
            r.timestamp == self.timestamp,
            opt_str(r.schema_version) == Some(version@),
            r.error.message@ == self.error.message@,
            r.error.code@ == self.error.code@,
            r.error.retryable == self.error.retryable,
            r.fix@ == self.fix@,
            actions_view(r.next_actions@) == actions_view(self.next_actions@),
            r.exit_code == self.exit_code,
    {
        ErrorEnvelope { schema_version: Some(owned(version)), ..self }
    }

    /// Overrides the exit code, masked to 0–255.
    pub fn exit_code(self, code: i32) -> (r: ErrorEnvelope)
        ensures
            r.command@ == self.command@,
            r.timestamp == self.timestamp,
            opt_str(r.schema_version) == opt_str(self.schema_version),
            r.error.message@ == self.error.message@,
            r.error.code@ == self.error.code@,
            r.error.retryable == self.error.retryable,
            r.fix@ == self.fix@,
            actions_view(r.next_actions@) == actions_view(self.next_actions@),
            r.exit_code == masked(code as int),
    {
        ErrorEnvelope { exit_code: normalize_exit_code(code), ..self }
    }
}

/// Either envelope.
#[derive(Debug, PartialEq)]
pub enum Envelope {
    Success(SuccessEnvelope),
    Error(ErrorEnvelope),
}

impl Envelope {
    pub fn command(&self) -> (r: &str)
        ensures
            r@ == match self {
                Envelope::Success(s) => s.command@,
                Envelope::Error(e) => e.command@,
            },
    {
        match self {
            Envelope::Success(s) => s.command.as_str(),
            Envelope::Error(e) => e.command.as_str(),
        }
    }

    pub fn ok(&self) -> (r: bool)
        ensures
            r == (self is Success),
    {
        match self {
            Envelope::Success(_) => true,
            Envelope::Error(_) => false,
        }
    }

    pub fn exit_code(&self) -> (r: i32)
        ensures
            r == match self {
                Envelope::Success(s) => s.exit_code,
                Envelope::Error(e) => e.exit_code,
            },
    {
        match self {
            Envelope::Success(s) => s.exit_code,
            Envelope::Error(e) => e.exit_code,
        }
    }
}

/// Model of an [`Envelope`].
pub ghost enum EnvelopeV {
    Success {
        command: Seq<char>,
        timestamp: u64,
        schema_version: Option<Seq<char>>,
        result: JsonV,
        next_actions: Seq<NextActionV>,
        exit_code: i32,
    },
    Error {
        command: Seq<char>,
        timestamp: u64,
        schema_version: Option<Seq<char>>,
        message: Seq<char>,
        code: Seq<char>,
        retryable: bool,
        fix: Seq<char>,
        next_actions: Seq<NextActionV>,
        exit_code: i32,
    },
}

impl View for Envelope {
    type V = EnvelopeV;

    open spec fn view(&self) -> EnvelopeV {
        match self {
            Envelope::Success(s) => EnvelopeV::Success {
                command: s.command@,
                timestamp: s.timestamp,
                schema_version: opt_str(s.schema_version),
                result: s.result@,
                next_actions: actions_view(s.next_actions@),
                exit_code: s.exit_code,
            },
            Envelope::Error(e) => EnvelopeV::Error {
                command: e.command@,
                timestamp: e.timestamp,
                schema_version: opt_str(e.schema_version),
                message: e.error.message@,
                code: e.error.code@,
                retryable: e.error.retryable,
                fix: e.fix@,
                next_actions: actions_view(e.next_actions@),
                exit_code: e.exit_code,
            },
        }
    }
}

} // verus!
