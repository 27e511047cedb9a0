//! NDJSON stream events and the emitter state that enforces the terminal
//! `result`/`error` semantics: once a terminal event is on the wire, or a
//! write may have left a partial line, nothing more is emitted.
use vstd::prelude::*;
use crate::envelope::{actions_view, opt_str, ErrorBody, ErrorEnvelope, NextAction, NextActionV, SuccessEnvelope};
use crate::json::{Json, JsonV};

verus! {

/// Step lifecycle status for stream events.
#[derive(Clone, Copy, Debug, PartialEq, Eq, Structural)]
pub enum StepStatus {
    Started,
    Completed,
    Failed,
}

/// Log level for stream events.
#[derive(Clone, Copy, Debug, PartialEq, Eq, Structural)]
pub enum LogLevel {
    Info,
    Warn,
    Error,
}

/// Typed NDJSON stream event. The terminal variants (`Result`, `Error`)
/// carry what an envelope carries.
#[derive(Debug, PartialEq)]
pub enum StreamEvent {
    Start { command: String, ts: String },
    Step {
        name: String,
        status: StepStatus,
        duration_ms: Option<u64>,
        error: Option<String>,
        ts: String,
    },
    Progress { name: String, percent: Option<u8>, message: Option<String>, ts: String },
    Log { level: LogLevel, message: String, ts: String },
    Event { name: String, data: Json, ts: String },
    Result {
        command: String,
        timestamp: u64,
        exit_code: i32,
        schema_version: Option<String>,
        result: Json,
        next_actions: Vec<NextAction>,
    },
    Error {
        command: String,
        timestamp: u64,
        exit_code: i32,
        schema_version: Option<String>,
        error: ErrorBody,
        fix: String,
        next_actions: Vec<NextAction>,
    },
}

/// Model of a [`StreamEvent`].
pub ghost enum StreamEventV {
    Start { command: Seq<char>, ts: Seq<char> },
    Step {
        name: Seq<char>,
        status: StepStatus,
        duration_ms: Option<u64>,
        error: Option<Seq<char>>,
        ts: Seq<char>,
    },
    Progress { name: Seq<char>, percent: Option<u8>, message: Option<Seq<char>>, ts: Seq<char> },
    Log { level: LogLevel, message: Seq<char>, ts: Seq<char> },
    Event { name: Seq<char>, data: JsonV, ts: Seq<char> },
    Result {
        command: Seq<char>,
        timestamp: u64,
        exit_code: i32,
        schema_version: Option<Seq<char>>,
        result: JsonV,
        next_actions: Seq<NextActionV>,
    },
    Error {
        command: Seq<char>,
        timestamp: u64,
        exit_code: i32,
        schema_version: Option<Seq<char>>,
        message: Seq<char>,
        code: Seq<char>,
        retryable: bool,
        fix: Seq<char>,
        next_actions: Seq<NextActionV>,
    },
}

impl View for StreamEvent {
    type V = StreamEventV;

    open spec fn view(&self) -> StreamEventV {
        match self {
            StreamEvent::Start { command, ts } => StreamEventV::Start { command: command@, ts: ts@ },
            StreamEvent::Step { name, status, duration_ms, error, ts } => StreamEventV::Step {
                name: name@,
                status: *status,
                duration_ms: *duration_ms,
                error: opt_str(*error),
                ts: ts@,
            },
            StreamEvent::Progress { name, percent, message, ts } => StreamEventV::Progress {
                name: name@,
                percent: *percent,
                message: opt_str(*message),
                ts: ts@,
            },
            StreamEvent::Log { level, message, ts } => StreamEventV::Log {
                level: *level,
                message: message@,
                ts: ts@,
            },
            StreamEvent::Event { name, data, ts } => StreamEventV::Event {
                name: name@,
                data: data@,
                ts: ts@,
            },
            StreamEvent::Result {
                command,
                timestamp,
                exit_code,
                schema_version,
                result,
                next_actions,
            } => StreamEventV::Result {
                command: command@,
                timestamp: *timestamp,
                exit_code: *exit_code,
                schema_version: opt_str(*schema_version),
                result: result@,
                next_actions: actions_view(next_actions@),
            },
            StreamEvent::Error {
                command,
                timestamp,
                exit_code,
                schema_version,
                error,
                fix,
                next_actions,
            } => StreamEventV::Error {
                command: command@,
                timestamp: *timestamp,
                exit_code: *exit_code,
                schema_version: opt_str(*schema_version),
                message: error.message@,
                code: error.code@,
                retryable: error.retryable,
                fix: fix@,
                next_actions: actions_view(next_actions@),
            },
        }
    }
}

impl StreamEvent {
    /// The terminal `result` event carrying a success envelope.
    pub fn result_from_envelope(envelope: SuccessEnvelope) -> (r: StreamEvent)
        ensures
            r matches StreamEvent::Result { command, timestamp, exit_code, schema_version, result, next_actions }
                && command@ == envelope.command@ && timestamp == envelope.timestamp && exit_code
                == envelope.exit_code && crate::envelope::opt_str(schema_version)
                == crate::envelope::opt_str(envelope.schema_version) && result@ == envelope.result@
                && crate::envelope::actions_view(next_actions@) == crate::envelope::actions_view(
                envelope.next_actions@,
            ),
    {
        let SuccessEnvelope { command, timestamp, schema_version, result, next_actions, exit_code } =
            envelope;
        StreamEvent::Result { command, timestamp, exit_code, schema_version, result, next_actions }
    }

    /// The terminal `error` event carrying an error envelope.
    pub fn error_from_envelope(envelope: ErrorEnvelope) -> (r: StreamEvent)
        ensures
            r matches StreamEvent::Error { command, timestamp, exit_code, schema_version, error, fix, next_actions }
                && command@ == envelope.command@ && timestamp == envelope.timestamp && exit_code
                == envelope.exit_code && crate::envelope::opt_str(schema_version)
                == crate::envelope::opt_str(envelope.schema_version) && error.message@
                == envelope.error.message@ && error.code@ == envelope.error.code@ && error.retryable
                == envelope.error.retryable && fix@ == envelope.fix@
                && crate::envelope::actions_view(next_actions@) == crate::envelope::actions_view(
                envelope.next_actions@,
            ),
    {
        let ErrorEnvelope { command, timestamp, schema_version, error, fix, next_actions, exit_code } =
            envelope;
        StreamEvent::Error {
            command,
            timestamp,
            exit_code,
            schema_version,
            error,
            fix,
            next_actions,
        }
    }

    /// Whether this event ends the stream.
    pub fn is_terminal(&self) -> (r: bool)
        ensures
            r == (self is Result || self is Error),
    {
        match self {
            StreamEvent::Result { .. } => true,
            StreamEvent::Error { .. } => true,
            _ => false,
        }
    }
}

/// Controls when the emitter flushes the underlying writer.
#[derive(Clone, Copy, Debug, PartialEq, Eq, Structural)]
pub enum FlushPolicy {
    /// Flush after every emitted event (the default).
    Every,
    /// Flush only after terminal events.
    Terminal,
    /// Never flush automatically.
    Never,
}

impl FlushPolicy {
    /// The default policy: flush after every event.
    pub fn default_policy() -> (r: FlushPolicy)
        ensures
            r == FlushPolicy::Every,
    {
        FlushPolicy::Every
    }
}

/// Whether `policy` flushes after an event.
pub open spec fn flushes(policy: FlushPolicy, terminal: bool) -> bool {
    match policy {
        FlushPolicy::Every => true,
        FlushPolicy::Terminal => terminal,
        FlushPolicy::Never => false,
    }
}

/// What to do with the next event.
#[derive(Clone, Copy, Debug, PartialEq, Eq, Structural)]
pub enum EmitStep {
    /// Refuse it: the stream is terminated or poisoned.
    Refuse,
    /// Write it as one line, then flush when `flush` says so.
    Write { terminal: bool, flush: bool },
}

/// The emitter's state: whether a terminal event is on the wire, whether a
/// failed write or flush may have left a partial line, and the flush policy.
pub ghost struct EmitterV {
    pub terminated: bool,
    pub poisoned: bool,
    pub policy: FlushPolicy,
}

/// The step for an event of the given kind.
pub open spec fn plan_model(s: EmitterV, terminal: bool) -> EmitStep {
    if s.terminated || s.poisoned {
        EmitStep::Refuse
    } else {
        EmitStep::Write { terminal, flush: flushes(s.policy, terminal) }
    }
}

/// The state after writing a line: a failed write poisons; a written
/// terminal line terminates (before any flush).
pub open spec fn after_write(s: EmitterV, ok: bool, terminal: bool) -> EmitterV {
    if !ok {
        EmitterV { poisoned: true, ..s }
    } else if terminal {
        EmitterV { terminated: true, ..s }
    } else {
        s
    }
}

/// The state after a flush: a failed flush poisons.
pub open spec fn after_flush(s: EmitterV, ok: bool) -> EmitterV {
    if ok {
        s
    } else {
        EmitterV { poisoned: true, ..s }
    }
}

/// The NDJSON line for an event whose JSON text is `encoded`: the text and
/// a newline.
pub open spec fn ndjson_line(encoded: Seq<u8>) -> Seq<u8> {
    encoded.push(10u8)
}

/// One line to write, as [`NdjsonEmitter::begin_emit`] prepares it.
pub struct EmitLine {
    /// The bytes to write, newline included.
    pub line: Vec<u8>,
    /// Whether the event ends the stream.
    pub terminal: bool,
    /// Whether to flush the writer after the line.
    pub flush: bool,
}

/// Stateful NDJSON event emitter over a writer `W`.
pub struct NdjsonEmitter<W> {
    writer: W,
    terminated: bool,
    poisoned: bool,
    flush_policy: FlushPolicy,
}

impl<W> View for NdjsonEmitter<W> {
    type V = EmitterV;

    closed spec fn view(&self) -> EmitterV {
        EmitterV {
            terminated: self.terminated,
            poisoned: self.poisoned,
            policy: self.flush_policy,
        }
    }
}

impl<W> NdjsonEmitter<W> {
    pub fn new(writer: W) -> (r: NdjsonEmitter<W>)
        ensures
            r@ == (EmitterV { terminated: false, poisoned: false, policy: FlushPolicy::Every }),
            r.writer_value() == writer,
    {
        NdjsonEmitter { writer, terminated: false, poisoned: false, flush_policy: FlushPolicy::Every }
    }

    /// Sets the flush policy.
    pub fn with_flush_policy(self, policy: FlushPolicy) -> (r: NdjsonEmitter<W>)
        ensures
            r@ == (EmitterV { policy, ..self@ }),
            r.writer_value() == self.writer_value(),
    {
        NdjsonEmitter { flush_policy: policy, ..self }
    }

    /// What to do with `event` (see [`plan_model`]).
    pub fn plan_emit(&self, event: &StreamEvent) -> (r: EmitStep)
        ensures
            r == plan_model(self@, event is Result || event is Error),
    {
        if self.terminated || self.poisoned {
            return EmitStep::Refuse;
        }
        let terminal = event.is_terminal();
        let flush = match self.flush_policy {
            FlushPolicy::Every => true,
            FlushPolicy::Terminal => terminal,
            FlushPolicy::Never => false,
        };
        EmitStep::Write { terminal, flush }
    }

    /// Prepares the emit of `event`, whose JSON text is `encoded`: `None`
    /// once the stream is terminated or poisoned, so nothing is written;
    /// otherwise the one line to write, `encoded` followed by a newline,
    /// with whether it is terminal and whether to flush after it.
    pub fn begin_emit(&self, event: &StreamEvent, encoded: Vec<u8>) -> (r: Option<EmitLine>)
        ensures
            match plan_model(self@, event is Result || event is Error) {
                EmitStep::Refuse => r is None,
                EmitStep::Write { terminal, flush } => r matches Some(l) && l.line@ == ndjson_line(
                    encoded@,
                ) && l.terminal == terminal && l.flush == flush,
            },
    {
        match self.plan_emit(event) {
            EmitStep::Refuse => None,
            EmitStep::Write { terminal, flush } => {
                let mut line = encoded;
                line.push(10u8);
                Some(EmitLine { line, terminal, flush })
            },
        }
    }

    /// Records how writing a line went.
    pub fn record_write(&mut self, ok: bool, terminal: bool)
        ensures
            final(self)@ == after_write(old(self)@, ok, terminal),
            final(self).writer_value() == old(self).writer_value(),
    {
        if !ok {
            self.poisoned = true;
        } else if terminal {
            self.terminated = true;
        }
    }

    /// Records how a flush went.
    pub fn record_flush(&mut self, ok: bool)
        ensures
            final(self)@ == after_flush(old(self)@, ok),
            final(self).writer_value() == old(self).writer_value(),
    {
        if !ok {
            self.poisoned = true;
        }
    }

    /// True once a terminal line has been written, even if a later flush
    /// failed.
    pub fn terminated(&self) -> (r: bool)
        ensures
            r == self@.terminated,
    {
        self.terminated
    }

    /// True if a write or flush error may have left a partial line.
    pub fn poisoned(&self) -> (r: bool)
        ensures
            r == self@.poisoned,
    {
        self.poisoned
    }

    /// The writer, for the write and flush of a planned step.
    pub fn writer_mut(&mut self) -> (r: &mut W)
        ensures
            final(self)@ == old(self)@,
            *r == old(self).writer_value(),
            final(self).writer_value() == *final(r),
    {
        &mut self.writer
    }

    pub fn into_inner(self) -> (r: W)
        ensures
            r == self.writer_value(),
    {
        self.writer
    }

    /// The writer events go to.
    pub closed spec fn writer_value(&self) -> W {
        self.writer
    }
}

/// One emit attempt: whether the event is terminal, and how its write and
/// flush went.
pub ghost struct Attempt {
    pub terminal: bool,
    pub write_ok: bool,
    pub flush_ok: bool,
}

/// The state after one attempt, and whether a terminal line was written.
pub open spec fn attempt(s: EmitterV, a: Attempt) -> (EmitterV, bool) {
    match plan_model(s, a.terminal) {
        EmitStep::Refuse => (s, false),
        EmitStep::Write { terminal, flush } => {
            let w = after_write(s, a.write_ok, terminal);
            let f = if a.write_ok && flush {
                after_flush(w, a.flush_ok)
            } else {
                w
            };
            (f, a.write_ok && terminal)
        },
    }
}

/// What each flush policy does with a line it writes: `Every` flushes after
/// every line, `Never` after none, and `Terminal` after exactly the terminal
/// (`result` / `error`) lines. The written step always carries the event's
/// own kind.
pub proof fn law_flush_policies(s: EmitterV, terminal: bool)
    requires
        !s.terminated,
        !s.poisoned,
    ensures
        plan_model(s, terminal) matches EmitStep::Write { terminal: t, flush } && t == terminal
            && (s.policy == FlushPolicy::Every ==> flush) && (s.policy == FlushPolicy::Never
            ==> !flush) && (s.policy == FlushPolicy::Terminal ==> (flush <==> terminal)),
{
}

/// One emit attempt: a terminated or poisoned emitter refuses and stays as
/// it was (nothing is written); otherwise a failed write poisons it and
/// leaves `terminated` as it was, and a fully written terminal line
/// terminates it whether or not the flush that follows succeeds.
pub proof fn law_emit_attempt(s: EmitterV, a: Attempt)
    ensures
        (s.terminated || s.poisoned) ==> attempt(s, a) == (s, false),
        !(s.terminated || s.poisoned) && !a.write_ok ==> attempt(s, a).0.poisoned
            && attempt(s, a).0.terminated == s.terminated && !attempt(s, a).1,
        !(s.terminated || s.poisoned) && a.write_ok && a.terminal ==> attempt(s, a).0.terminated
            && attempt(s, a).1,
        !(s.terminated || s.poisoned) && a.write_ok && !a.terminal ==> !attempt(s, a).0.terminated,
{
}

/// The state after a run of attempts, and how many terminal lines were
/// written.
pub open spec fn run_attempts(s: EmitterV, xs: Seq<Attempt>) -> (EmitterV, nat)
    decreases xs.len(),
{
    if xs.len() == 0 {
        (s, 0)
    } else {
        let (p, n) = run_attempts(s, xs.drop_last());
        let (q, wrote) = attempt(p, xs.last());
        (q, n + if wrote {
            1nat
        } else {
            0nat
        })
    }
}

/// Whatever the events and however the writes and flushes go, a stream
/// carries at most one terminal line, none once it was terminated or
/// poisoned, and a terminated stream stays terminated.
pub proof fn law_at_most_one_terminal(s: EmitterV, xs: Seq<Attempt>)
    ensures
        run_attempts(s, xs).1 <= 1,
        (s.terminated || s.poisoned) ==> run_attempts(s, xs).1 == 0,
        s.terminated ==> run_attempts(s, xs).0.terminated,
        s.poisoned ==> run_attempts(s, xs).0.poisoned,
        run_attempts(s, xs).1 == 1 ==> run_attempts(s, xs).0.terminated,
    decreases xs.len(),
{
    if xs.len() > 0 {
        law_at_most_one_terminal(s, xs.drop_last());
    }
}

} // verus!
