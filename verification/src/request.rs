//! What a handler receives (the request) and what it hands back (an output
//! or an error).
use vstd::prelude::*;
use crate::envelope::{ExitCode, NextAction, NextActionV, actions_view, duplicate_actions};
use crate::invocation::{Invocation, InvocationView};
use crate::json::{Json, JsonV, jvs, obj_from};
use crate::text::{decimal, join, owned, push_decimal, push_str, views};
use crate::usage::{flag_on, parse_select_fields, reserved_flag_on, select_field_list};

verus! {

/// What `{:?}` prints for a string: the string quoted, with escapes.
pub uninterp spec fn debug_text(s: Seq<char>) -> Seq<char>;

/// The `Debug` rendering of `s`, through `format!("{:?}")`.
#[verifier::external_body]
fn debug_quoted(s: &str) -> (r: String)
    ensures
        r@ == debug_text(s@),
{
    format!("{:?}", s)
}

// ---------------------------------------------------------------------------
// Errors
// ---------------------------------------------------------------------------

/// Error payload returned from a command handler.
#[derive(Debug, PartialEq)]
pub struct CommandError {
    pub message: String,
    pub code: String,
    pub fix: String,
    pub retryable: bool,
    pub next_actions: Vec<NextAction>,
    /// Typed process exit code; `None` stands for [`ExitCode::ERROR`].
    pub exit_code: Option<i32>,
}

/// Model of a [`CommandError`].
pub ghost struct CommandErrorV {
    pub message: Seq<char>,
    pub code: Seq<char>,
    pub fix: Seq<char>,
    pub retryable: bool,
    pub next_actions: Seq<NextActionV>,
    pub exit_code: Option<i32>,
}

impl View for CommandError {
    type V = CommandErrorV;

    open spec fn view(&self) -> CommandErrorV {
        CommandErrorV {
            message: self.message@,
            code: self.code@,
            fix: self.fix@,
            retryable: self.retryable,
            next_actions: actions_view(self.next_actions@),
            exit_code: self.exit_code,
        }
    }
}

/// A fresh error with no actions and no exit code.
pub open spec fn error_model(message: Seq<char>, code: Seq<char>, fix: Seq<char>) -> CommandErrorV {
    CommandErrorV { message, code, fix, retryable: false, next_actions: Seq::empty(), exit_code: None }
}

impl CommandError {
    pub fn new(message: &str, code: &str, fix: &str) -> (r: CommandError)
        ensures
            r@ == error_model(message@, code@, fix@),
    {
        let r = CommandError {
            message: owned(message),
            code: owned(code),
            fix: owned(fix),
            retryable: false,
            next_actions: Vec::new(),
            exit_code: None,
        };
        assert(actions_view(r.next_actions@) =~= Seq::<NextActionV>::empty());
        r
    }

    pub fn retryable(self, retryable: bool) -> (r: CommandError)
        ensures
            r@ == (CommandErrorV { retryable, ..self@ }),
    {
        CommandError { retryable, ..self }
    }

    /// Sets the typed process exit code. An error must not carry the
    /// success code.
    pub fn exit_code(self, code: i32) -> (r: CommandError)
        requires
            code != ExitCode::SUCCESS,
        ensures
            r@ == (CommandErrorV { exit_code: Some(code), ..self@ }),
    {
        CommandError { exit_code: Some(code), ..self }
    }

    pub fn next_action(self, action: NextAction) -> (r: CommandError)
        ensures
            r@ == (CommandErrorV { next_actions: self@.next_actions.push(action@), ..self@ }),
    {
        let mut s = self;
        let ghost before = s.next_actions@;
        s.next_actions.push(action);
        proof {
            assert(actions_view(s.next_actions@) =~= actions_view(before).push(action@));
        }
        s
    }

    pub fn next_actions(self, actions: Vec<NextAction>) -> (r: CommandError)
        ensures
            r@ == (CommandErrorV {
                next_actions: self@.next_actions + actions_view(actions@),
                ..self@
            }),
    {
        let mut s = self;
        let ghost before = s.next_actions@;
        let mut more = actions;
        s.next_actions.append(&mut more);
        proof {
            assert(actions_view(s.next_actions@) =~= actions_view(before) + actions_view(
                actions@,
            ));
        }
        s
    }

    /// The error's message and code as `Display` shows them: `message (code)`.
    pub fn describe(&self) -> (r: String)
        ensures
            r@ == self.message@ + " ("@ + self.code@ + ")"@,
    {
        let mut r = String::new();
        push_str(&mut r, self.message.as_str());
        push_str(&mut r, " (");
        push_str(&mut r, self.code.as_str());
        push_str(&mut r, ")");
        r
    }
}

// ---------------------------------------------------------------------------
// Outputs
// ---------------------------------------------------------------------------

/// Success payload returned from a command handler.
#[derive(Debug, PartialEq)]
pub struct CommandOutput {
    result: Json,
    next_actions: Vec<NextAction>,
    /// Exit-code override; `None` stands for [`ExitCode::SUCCESS`]. Lets a
    /// command report a non-zero status in an `ok: true` envelope.
    exit_code: Option<i32>,
    /// Fields `--compact` keeps for this output; `None` means the generic
    /// null/empty drop.
    compact_fields: Option<Vec<String>>,
}

/// Model of a [`CommandOutput`].
pub ghost struct CommandOutputV {
    pub result: JsonV,
    pub next_actions: Seq<NextActionV>,
    pub exit_code: Option<i32>,
    pub compact_fields: Option<Seq<Seq<char>>>,
}

impl View for CommandOutput {
    type V = CommandOutputV;

    closed spec fn view(&self) -> CommandOutputV {
        CommandOutputV {
            result: self.result@,
            next_actions: actions_view(self.next_actions@),
            exit_code: self.exit_code,
            compact_fields: crate::envelope::opt_strs(self.compact_fields),
        }
    }
}

/// The bounded-list result for `items` out of `total`.
pub open spec fn list_model(items: Seq<JsonV>, total: nat) -> JsonV {
    let count = items.len();
    let truncated = count < total;
    let base = seq![
        ("items"@, JsonV::Array(items)),
        ("count"@, JsonV::Number(decimal(count))),
        ("total"@, JsonV::Number(decimal(total))),
        ("truncated"@, JsonV::Bool(truncated)),
    ];
    JsonV::Object(
        obj_from(
            if truncated {
                base.push(("guidance"@, JsonV::Str(guidance_text(count, total))))
            } else {
                base
            },
        ),
    )
}

/// The nudge a truncated list carries.
pub open spec fn guidance_text(count: nat, total: nat) -> Seq<char> {
    "Showing "@ + decimal(count) + " of "@ + decimal(total)
        + " results. Narrow with --limit, --select, or filter flags."@
}

impl CommandOutput {
    pub fn new(result: Json) -> (r: CommandOutput)
        ensures
            r@ == (CommandOutputV {
                result: result@,
                next_actions: Seq::empty(),
                exit_code: None,
                compact_fields: None,
            }),
    {
        let r = CommandOutput { result, next_actions: Vec::new(), exit_code: None, compact_fields: None };
        assert(actions_view(r.next_actions@) =~= Seq::<NextActionV>::empty());
        r
    }

    /// A bounded list result `{ items, count, total, truncated }` with
    /// `count == total` and `truncated == false`.
    pub fn list(items: Vec<Json>) -> (r: CommandOutput)
        ensures
            r@.result == list_model(jvs(items@), items@.len()),
            r@.next_actions.len() == 0,
            r@.exit_code is None,
            r@.compact_fields is None,
    {
        let total = items.len();
        CommandOutput::list_truncated(items, total)
    }

    /// A bounded list result where `total` may exceed the items returned;
    /// a truncated list also carries a `guidance` string.
    pub fn list_truncated(items: Vec<Json>, total: usize) -> (r: CommandOutput)
        ensures
            r@.result == list_model(jvs(items@), total as nat),
            r@.next_actions.len() == 0,
            r@.exit_code is None,
            r@.compact_fields is None,
    {
        let count = items.len();
        let truncated = count < total;
        proof {
            crate::json::lemma_jvs(items@);
        }
        let ghost iv = jvs(items@);
        let mut entries: Vec<(String, Json)> = Vec::new();
        entries.push((owned("items"), Json::Array(items)));
        entries.push((owned("count"), Json::from_u64(count as u64)));
        entries.push((owned("total"), Json::from_u64(total as u64)));
        entries.push((owned("truncated"), Json::Bool(truncated)));
        if truncated {
            let mut g = String::new();
            push_str(&mut g, "Showing ");
            push_decimal(&mut g, count as u64);
            push_str(&mut g, " of ");
            push_decimal(&mut g, total as u64);
            push_str(&mut g, " results. Narrow with --limit, --select, or filter flags.");
            entries.push((owned("guidance"), Json::Str(g)));
        }
        proof {
            let base = seq![
                ("items"@, JsonV::Array(iv)),
                ("count"@, JsonV::Number(decimal(count as nat))),
                ("total"@, JsonV::Number(decimal(total as nat))),
                ("truncated"@, JsonV::Bool(truncated)),
            ];
            let full = if truncated {
                base.push(("guidance"@, JsonV::Str(guidance_text(count as nat, total as nat))))
            } else {
                base
            };
            crate::json::lemma_jes_ext(entries@, full);
        }
        CommandOutput::new(Json::from_entries(entries))
    }

    pub fn next_action(self, action: NextAction) -> (r: CommandOutput)
        ensures
            r@ == (CommandOutputV { next_actions: self@.next_actions.push(action@), ..self@ }),
    {
        let mut s = self;
        let ghost before = s.next_actions@;
        s.next_actions.push(action);
        proof {
            assert(actions_view(s.next_actions@) =~= actions_view(before).push(action@));
        }
        s
    }

    pub fn next_actions(self, actions: Vec<NextAction>) -> (r: CommandOutput)
        ensures
            r@ == (CommandOutputV {
                next_actions: self@.next_actions + actions_view(actions@),
                ..self@
            }),
    {
        let mut s = self;
        let ghost before = s.next_actions@;
        let mut more = actions;
        s.next_actions.append(&mut more);
        proof {
            assert(actions_view(s.next_actions@) =~= actions_view(before) + actions_view(
                actions@,
            ));
        }
        s
    }

    /// Overrides the process exit code while still reporting success.
    pub fn exit_code(self, code: i32) -> (r: CommandOutput)
        ensures
            r@ == (CommandOutputV { exit_code: Some(code), ..self@ }),
    {
        CommandOutput { exit_code: Some(code), ..self }
    }

    /// The fields `--compact` should keep for this output.
    pub fn compact_fields(self, fields: Vec<String>) -> (r: CommandOutput)
        ensures
            r@ == (CommandOutputV { compact_fields: Some(views(fields@)), ..self@ }),
    {
        CommandOutput { compact_fields: Some(fields), ..self }
    }

    pub fn result(&self) -> (r: &Json)
        ensures
            r@ == self@.result,
    {
        &self.result
    }

    /// The output taken apart: result, actions, exit code, compact fields.
    pub fn into_parts(self) -> (r: (Json, Vec<NextAction>, Option<i32>, Option<Vec<String>>))
        ensures
            r.0@ == self@.result,
            actions_view(r.1@) == self@.next_actions,
            r.2 == self@.exit_code,
            crate::envelope::opt_strs(r.3) == self@.compact_fields,
    {
        (self.result, self.next_actions, self.exit_code, self.compact_fields)
    }
}

// ---------------------------------------------------------------------------
// Requests
// ---------------------------------------------------------------------------

/// A prompt: borrowed from a flag, or built from the positionals.
#[derive(Debug, PartialEq)]
pub enum Cow<'a> {
    Borrowed(&'a str),
    Owned(String),
}

impl<'a> Cow<'a> {
    pub open spec fn text(&self) -> Seq<char> {
        match self {
            Cow::Borrowed(s) => s@,
            Cow::Owned(s) => s@,
        }
    }

    pub fn as_str(&self) -> (r: &str)
        ensures
            r@ == self.text(),
    {
        match self {
            Cow::Borrowed(s) => s,
            Cow::Owned(s) => s.as_str(),
        }
    }
}

/// Model of a [`CommandRequest`].
pub ghost struct RequestV {
    pub invocation: InvocationView,
    pub command_path: Seq<Seq<char>>,
    pub positionals: Seq<Seq<char>>,
}

/// Runtime request passed to each command handler.
pub struct CommandRequest<'a> {
    invocation: &'a Invocation,
    command_path: &'a [String],
    positionals: &'a [String],
}

impl<'a> View for CommandRequest<'a> {
    type V = RequestV;

    closed spec fn view(&self) -> RequestV {
        RequestV {
            invocation: self.invocation@,
            command_path: views(self.command_path@),
            positionals: views(self.positionals@),
        }
    }
}

/// A usage error raised by a typed accessor: it exits [`ExitCode::USAGE`].
pub open spec fn usage_error(message: Seq<char>, code: Seq<char>, fix: Seq<char>) -> CommandErrorV {
    CommandErrorV { exit_code: Some(ExitCode::USAGE), ..error_model(message, code, fix) }
}

/// The text of `missing argument <name>`.
pub open spec fn missing_arg_error(index: nat, name: Seq<char>) -> CommandErrorV {
    usage_error(
        "missing argument <"@ + name + ">"@,
        "MISSING_ARG"@,
        "Provide <"@ + name + "> as positional argument "@ + decimal(index) + "."@,
    )
}

pub open spec fn invalid_arg_error(name: Seq<char>, raw: Seq<char>) -> CommandErrorV {
    usage_error(
        "argument <"@ + name + "> is not valid: "@ + debug_text(raw),
        "INVALID_ARG"@,
        "Pass a valid value for <"@ + name + ">."@,
    )
}

pub open spec fn invalid_flag_error(key: Seq<char>, raw: Seq<char>) -> CommandErrorV {
    usage_error(
        "flag --"@ + key + " is not valid: "@ + debug_text(raw),
        "INVALID_FLAG"@,
        "Pass a valid value for --"@ + key + "."@,
    )
}

/// `parse` may give `out` for some string with the characters `text`.
pub open spec fn parse_gives<T, F: Fn(&str) -> Option<T>>(parse: F, text: Seq<char>, out: Option<T>) -> bool {
    exists|s: &str| s@ == text && #[trigger] parse.ensures((s,), out)
}

impl<'a> CommandRequest<'a> {
    pub fn new(invocation: &'a Invocation, command_path: &'a [String], positionals: &'a [String]) -> (r:
        CommandRequest<'a>)
        ensures
            r@ == (RequestV {
                invocation: invocation@,
                command_path: views(command_path@),
                positionals: views(positionals@),
            }),
    {
        CommandRequest { invocation, command_path, positionals }
    }

    pub fn invocation(&self) -> (r: &Invocation)
        ensures
            r@ == self@.invocation,
    {
        self.invocation
    }

    pub fn command_path(&self) -> (r: &[String])
        ensures
            views(r@) == self@.command_path,
    {
        self.command_path
    }

    pub fn positionals(&self) -> (r: &[String])
        ensures
            views(r@) == self@.positionals,
    {
        self.positionals
    }

    /// Positional `index` after the command path.
    pub fn arg(&self, index: usize) -> (r: Option<&str>)
        ensures
            match r {
                Some(v) => index < self@.positionals.len() && v@ == self@.positionals[index as int],
                None => index >= self@.positionals.len(),
            },
    {
        if index < self.positionals.len() {
            Some(self.positionals[index].as_str())
        } else {
            None
        }
    }

    pub fn flag(&self, key: &str) -> (r: Option<&str>)
        ensures
            match r {
                Some(v) => self@.invocation.flags.contains_key(key@)
                    && self@.invocation.flags[key@] == v@,
                None => !self@.invocation.flags.contains_key(key@),
            },
    {
        self.invocation.flag(key)
    }

    /// Positional `index`, or a `MISSING_ARG` error naming it.
    pub fn require_arg(&self, index: usize, name: &str) -> (r: Result<&str, CommandError>)
        ensures
            match r {
                Ok(v) => index < self@.positionals.len() && v@ == self@.positionals[index as int],
                Err(e) => index >= self@.positionals.len() && e@ == missing_arg_error(
                    index as nat,
                    name@,
                ),
            },
    {
        match self.arg(index) {
            Some(v) => Ok(v),
            None => {
                let mut message = String::new();
                push_str(&mut message, "missing argument <");
                push_str(&mut message, name);
                push_str(&mut message, ">");
                let mut fix = String::new();
                push_str(&mut fix, "Provide <");
                push_str(&mut fix, name);
                push_str(&mut fix, "> as positional argument ");
                push_decimal(&mut fix, index as u64);
                push_str(&mut fix, ".");
                Err(CommandError::new(message.as_str(), "MISSING_ARG", fix.as_str()).exit_code(ExitCode::USAGE))
            },
        }
    }

    /// Parses positional `index` with `parse`: `MISSING_ARG` when it is
    /// absent, `INVALID_ARG` when `parse` rejects it.
    pub fn arg_parse<T, F: Fn(&str) -> Option<T>>(&self, index: usize, name: &str, parse: F) -> (r:
        Result<T, CommandError>)
        requires
            forall|s: &str| #[trigger] parse.requires((s,)),
        ensures
            index >= self@.positionals.len() ==> (r matches Err(e) && e@ == missing_arg_error(
                index as nat,
                name@,
            )),
            index < self@.positionals.len() ==> match r {
                Ok(v) => parse_gives(parse, self@.positionals[index as int], Some(v)),
                Err(e) => parse_gives(parse, self@.positionals[index as int], None::<T>)
                    && e@ == invalid_arg_error(name@, self@.positionals[index as int]),
            },
    {
        let raw = match self.require_arg(index, name) {
            Ok(raw) => raw,
            Err(e) => {
                return Err(e);
            },
        };
        let parsed = parse(raw);
        assert(parse_gives(parse, raw@, parsed));
        match parsed {
            Some(v) => Ok(v),
            None => {
                let mut message = String::new();
                push_str(&mut message, "argument <");
                push_str(&mut message, name);
                push_str(&mut message, "> is not valid: ");
                let q = debug_quoted(raw);
                push_str(&mut message, q.as_str());
                let mut fix = String::new();
                push_str(&mut fix, "Pass a valid value for <");
                push_str(&mut fix, name);
                push_str(&mut fix, ">.");
                Err(CommandError::new(message.as_str(), "INVALID_ARG", fix.as_str()).exit_code(ExitCode::USAGE))
            },
        }
    }

    /// Parses flag `key` with `parse` when present: `Ok(None)` when absent,
    /// `INVALID_FLAG` when `parse` rejects it.
    pub fn flag_parse<T, F: Fn(&str) -> Option<T>>(&self, key: &str, parse: F) -> (r: Result<
        Option<T>,
        CommandError,
    >)
        requires
            forall|s: &str| #[trigger] parse.requires((s,)),
        ensures
            !self@.invocation.flags.contains_key(key@) ==> r matches Ok(None),
            self@.invocation.flags.contains_key(key@) ==> match r {
                Ok(Some(v)) => parse_gives(parse, self@.invocation.flags[key@], Some(v)),
                Ok(None) => false,
                Err(e) => parse_gives(parse, self@.invocation.flags[key@], None::<T>) && e@
                    == invalid_flag_error(key@, self@.invocation.flags[key@]),
            },
    {
        match self.flag(key) {
            None => Ok(None),
            Some(raw) => match {
                let parsed = parse(raw);
                assert(parse_gives(parse, raw@, parsed));
                parsed
            } {
                Some(v) => Ok(Some(v)),
                None => {
                    let mut message = String::new();
                    push_str(&mut message, "flag --");
                    push_str(&mut message, key);
                    push_str(&mut message, " is not valid: ");
                    let q = debug_quoted(raw);
                    push_str(&mut message, q.as_str());
                    let mut fix = String::new();
                    push_str(&mut fix, "Pass a valid value for --");
                    push_str(&mut fix, key);
                    push_str(&mut fix, ".");
                    Err(CommandError::new(message.as_str(), "INVALID_FLAG", fix.as_str()).exit_code(ExitCode::USAGE))
                },
            },
        }
    }

    /// The prompt: the `--prompt` flag as given, else the positionals joined
    /// by spaces, else nothing.
    pub fn prompt(&self) -> (r: Option<Cow<'_>>)
        ensures
            self@.invocation.flags.contains_key("prompt"@) ==> (r matches Some(Cow::Borrowed(p))
                && p@ == self@.invocation.flags["prompt"@]),
            !self@.invocation.flags.contains_key("prompt"@) && self@.positionals.len() == 0 ==> r
                is None,
            !self@.invocation.flags.contains_key("prompt"@) && self@.positionals.len() > 0 ==> (r
                matches Some(Cow::Owned(p)) && p@ == join(self@.positionals, " "@)),
    {
        if let Some(prompt) = self.flag("prompt") {
            return Some(Cow::Borrowed(prompt));
        }
        if self.positionals.len() == 0 {
            return None;
        }
        Some(Cow::Owned(crate::text::join_strings(self.positionals, " ")))
    }

    /// `--dry-run`: preview without mutating.
    pub fn dry_run(&self) -> (r: bool)
        ensures
            r == flag_on(self@.invocation.flags, "dry-run"@),
    {
        reserved_flag_on(self.invocation, "dry-run")
    }

    /// `--quiet`: suppress non-essential output.
    pub fn quiet(&self) -> (r: bool)
        ensures
            r == flag_on(self@.invocation.flags, "quiet"@),
    {
        reserved_flag_on(self.invocation, "quiet")
    }

    /// `--yes` / `--no-input`: assume yes; never prompt interactively.
    pub fn assume_yes(&self) -> (r: bool)
        ensures
            r == (flag_on(self@.invocation.flags, "yes"@) || flag_on(
                self@.invocation.flags,
                "no-input"@,
            )),
    {
        reserved_flag_on(self.invocation, "yes") || reserved_flag_on(self.invocation, "no-input")
    }

    /// `--no-cache`: bypass any local cache.
    pub fn no_cache(&self) -> (r: bool)
        ensures
            r == flag_on(self@.invocation.flags, "no-cache"@),
    {
        reserved_flag_on(self.invocation, "no-cache")
    }

    /// `--no-color`: emit machine-friendly, uncolored output.
    pub fn no_color(&self) -> (r: bool)
        ensures
            r == flag_on(self@.invocation.flags, "no-color"@),
    {
        reserved_flag_on(self.invocation, "no-color")
    }

    /// `--compact`: caller asked for high-gravity fields only.
    pub fn compact(&self) -> (r: bool)
        ensures
            r == flag_on(self@.invocation.flags, "compact"@),
    {
        reserved_flag_on(self.invocation, "compact")
    }

    /// `--stdin`: caller intends to pipe input.
    pub fn wants_stdin(&self) -> (r: bool)
        ensures
            r == flag_on(self@.invocation.flags, "stdin"@),
    {
        reserved_flag_on(self.invocation, "stdin")
    }

    /// `--select=a,b,c`: the requested fields, split and trimmed; `None`
    /// when the flag is absent.
    pub fn select(&self) -> (r: Option<Vec<String>>)
        ensures
            match r {
                Some(v) => self@.invocation.flags.contains_key("select"@) && views(v@)
                    == select_field_list(self@.invocation.flags["select"@]),
                None => !self@.invocation.flags.contains_key("select"@),
            },
    {
        match self.flag("select") {
            Some(raw) => Some(parse_select_fields(raw)),
            None => None,
        }
    }
}

// ---------------------------------------------------------------------------
// Shared state
// ---------------------------------------------------------------------------

/// Mutable state shared across command invocations: named JSON values.
#[derive(Debug, PartialEq)]
pub struct ExecutionContext {
    memory: Vec<(String, Json)>,
}

impl View for ExecutionContext {
    type V = Seq<(Seq<char>, JsonV)>;

    closed spec fn view(&self) -> Seq<(Seq<char>, JsonV)> {
        crate::json::jes(self.memory@)
    }
}

impl ExecutionContext {
    pub fn new() -> (r: ExecutionContext)
        ensures
            r@ == Seq::<(Seq<char>, JsonV)>::empty(),
    {
        let r = ExecutionContext { memory: Vec::new() };
        assert(crate::json::jes(r.memory@) =~= Seq::<(Seq<char>, JsonV)>::empty());
        r
    }

    /// Stores `value` under `key`.
    pub fn set(&mut self, key: &str, value: Json)
        ensures
            final(self)@ == crate::json::obj_insert(old(self)@, key@, value@),
    {
        crate::json::obj_insert_exec(&mut self.memory, owned(key), value);
    }

    /// The value under `key`.
    pub fn get(&self, key: &str) -> (r: Option<&Json>)
        ensures
            match r {
                Some(v) => crate::json::obj_get(self@, key@) == Some(v@),
                None => crate::json::obj_get(self@, key@) is None,
            },
    {
        match crate::json::obj_find(&self.memory, key) {
            Some(i) => Some(&self.memory[i].1),
            None => None,
        }
    }

    /// Removes `key`, giving back its value.
    pub fn remove(&mut self, key: &str) -> (r: Option<Json>)
        ensures
            final(self)@ == crate::json::obj_remove(old(self)@, key@),
            match r {
                Some(v) => crate::json::obj_get(old(self)@, key@) == Some(v@),
                None => crate::json::obj_get(old(self)@, key@) is None,
            },
    {
        crate::json::obj_remove_exec(&mut self.memory, key)
    }

    /// Every stored entry, ordered by key.
    pub fn memory(&self) -> (r: &Vec<(String, Json)>)
        ensures
            crate::json::jes(r@) == self@,
    {
        &self.memory
    }
}

} // verus!
