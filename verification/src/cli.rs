//! The command tree and the runtime that answers every invocation with an
//! envelope.
//!
//! Running a handler is left to the caller: [`AgentCli::dispatch`] decides
//! what an argv asks for and either answers it outright or names the handler
//! to run, and [`AgentCli::finish`] turns the handler's outcome into the
//! envelope.
use vstd::prelude::*;
use crate::envelope::{
    ErrorEnvelope, Envelope, ExitCode, NextAction, NextActionV, SuccessEnvelope, actions_view,
    duplicate_actions, opt_str,
};
use crate::json::{Json, JsonV, jes, key_less, lemma_last_value_concat, obj_get, obj_insert};
use crate::text::{join, owned, push_str, views};

verus! {

broadcast use vstd::seq_lib::group_seq_properties;

/// Maximum depth of the command tree that traversals descend.
pub const MAX_COMMAND_DEPTH: usize = 32;

// ---------------------------------------------------------------------------
// Commands
// ---------------------------------------------------------------------------

/// Model of a [`Command`]; the handler is only seen as present or absent.
pub ghost struct CommandV {
    pub name: Seq<char>,
    pub description: Seq<char>,
    pub usage: Option<Seq<char>>,
    pub has_handler: bool,
    pub default_next_actions: Seq<NextActionV>,
    pub subcommands: Seq<(Seq<char>, CommandV)>,
    pub apply_projection: bool,
}

/// CLI command definition, generic over the handler it runs.
pub struct Command<H> {
    name: String,
    description: String,
    usage: Option<String>,
    handler: Option<H>,
    default_next_actions: Vec<NextAction>,
    /// Ordered by name; no name twice.
    subcommands: Vec<Command<H>>,
    /// When false, the reserved `--select`/`--compact` projection is not
    /// applied to this command's result (the built-in `doctor` keeps its
    /// `fix` strings this way).
    apply_reserved_projection: bool,
}

pub closed spec fn cv<H>(c: Command<H>) -> CommandV
    decreases c,
{
    CommandV {
        name: c.name@,
        description: c.description@,
        usage: opt_str(c.usage),
        has_handler: c.handler is Some,
        default_next_actions: actions_view(c.default_next_actions@),
        subcommands: cvs(c.subcommands@),
        apply_projection: c.apply_reserved_projection,
    }
}

/// Models of a list of commands, keyed by name.
pub closed spec fn cvs<H>(v: Seq<Command<H>>) -> Seq<(Seq<char>, CommandV)>
    decreases v,
{
    if v.len() == 0 {
        Seq::empty()
    } else {
        cvs(v.drop_last()).push((v.last().name@, cv(v.last())))
    }
}

impl<H> View for Command<H> {
    type V = CommandV;

    open spec fn view(&self) -> CommandV {
        cv(*self)
    }
}

pub proof fn lemma_cvs<H>(v: Seq<Command<H>>)
    ensures
        cvs(v).len() == v.len(),
        forall|i: int| 0 <= i < v.len() ==> #[trigger] cvs(v)[i] == (cv(v[i]).name, cv(v[i])),
    decreases v.len(),
{
    if v.len() > 0 {
        lemma_cvs(v.drop_last());
    }
}

proof fn lemma_cvs_ext<H>(a: Seq<Command<H>>, b: Seq<(Seq<char>, CommandV)>)
    requires
        a.len() == b.len(),
        forall|i: int| 0 <= i < a.len() ==> (a[i].name@, cv(a[i])) == b[i],
    ensures
        cvs(a) == b,
{
    lemma_cvs(a);
    assert(cvs(a) =~= b);
}

/// The first command of `cmds` named `name`.
pub closed spec fn find_in<H>(cmds: Seq<Command<H>>, name: Seq<char>) -> Option<Command<H>>
    decreases cmds.len(),
{
    if cmds.len() == 0 {
        None
    } else if cmds[0].name@ == name {
        Some(cmds[0])
    } else {
        find_in(cmds.drop_first(), name)
    }
}

/// The command object that `path` names in the tree `cmds`: each name
/// looked up among the subcommands of the one before.
pub closed spec fn command_at<H>(cmds: Seq<Command<H>>, path: Seq<Seq<char>>) -> Option<Command<H>>
    decreases path.len(),
{
    if path.len() == 0 {
        None
    } else if path.len() == 1 {
        find_in(cmds, path[0])
    } else {
        match command_at(cmds, path.drop_last()) {
            Some(c) => find_in(c.subcommands@, path.last()),
            None => None,
        }
    }
}

/// Index of the command named `name`.
fn find_command<H>(v: &Vec<Command<H>>, name: &str) -> (r: Option<usize>)
    ensures
        match r {
            Some(i) => i < v@.len() && v@[i as int].name@ == name@ && obj_get(cvs(v@), name@)
                == Some(cv(v@[i as int])) && find_in(v@, name@) == Some(v@[i as int]),
            None => obj_get(cvs(v@), name@) is None && find_in(v@, name@) is None,
        },
{
    let ghost m = cvs(v@);
    proof {
        lemma_cvs(v@);
        assert(m.skip(0) =~= m);
    }
    let mut i: usize = 0;
    while i < v.len()
        invariant
            m == cvs(v@),
            m.len() == v@.len(),
            forall|q: int| 0 <= q < v@.len() ==> #[trigger] m[q] == (v@[q].name@, cv(v@[q])),
            i <= v.len(),
            obj_get(m, name@) == obj_get(m.skip(i as int), name@),
            find_in(v@, name@) == find_in(v@.skip(i as int), name@),
        decreases v.len() - i,
    {
        proof {
            assert(m.skip(i as int).drop_first() =~= m.skip(i + 1));
            assert(m.skip(i as int)[0] == m[i as int]);
            assert(v@.skip(i as int).drop_first() =~= v@.skip(i + 1));
            assert(v@.skip(i as int)[0] == v@[i as int]);
        }
        if crate::text::str_eq(v[i].name.as_str(), name) {
            return Some(i);
        }
        i = i + 1;
    }
    None
}

/// Adds `c` to `v`, keeping the list ordered by name.
fn commands_insert<H>(v: &mut Vec<Command<H>>, c: Command<H>)
    ensures
        cvs(final(v)@) == obj_insert(cvs(old(v)@), c.name@, cv(c)),
{
    let ghost m = cvs(v@);
    let ghost kv = c.name@;
    let ghost vv = cv(c);
    proof {
        lemma_cvs(v@);
        assert(m.skip(0) =~= m);
        assert(m.take(0) + obj_insert(m, kv, vv) =~= obj_insert(m, kv, vv));
    }
    let mut i: usize = 0;
    while i < v.len()
        invariant
            *v == *old(v),
            m == cvs(old(v)@),
            m.len() == v@.len(),
            forall|q: int| 0 <= q < v@.len() ==> #[trigger] m[q] == (v@[q].name@, cv(v@[q])),
            kv == c.name@,
            vv == cv(c),
            i <= v.len(),
            obj_insert(m, kv, vv) == m.take(i as int) + obj_insert(m.skip(i as int), kv, vv),
        decreases v.len() - i,
    {
        proof {
            assert(m.skip(i as int).drop_first() =~= m.skip(i + 1));
            assert(m.skip(i as int)[0] == m[i as int]);
        }
        if crate::text::str_eq(v[i].name.as_str(), c.name.as_str()) {
            v.set(i, c);
            proof {
                assert(m.take(i as int) + m.skip(i as int).update(0, (kv, vv)) =~= m.update(
                    i as int,
                    (kv, vv),
                ));
                lemma_cvs_ext(v@, m.update(i as int, (kv, vv)));
            }
            return;
        }
        if key_less(c.name.as_str(), v[i].name.as_str()) {
            v.insert(i, c);
            proof {
                lemma_cvs_ext(v@, m.take(i as int) + (seq![(kv, vv)] + m.skip(i as int)));
            }
            return;
        }
        proof {
            assert(m.take(i as int) + (seq![m[i as int]] + obj_insert(m.skip(i + 1), kv, vv))
                =~= m.take(i + 1) + obj_insert(m.skip(i + 1), kv, vv));
        }
        i = i + 1;
    }
    proof {
        assert(m.take(i as int) =~= m);
        assert(m.skip(i as int) =~= Seq::<(Seq<char>, CommandV)>::empty());
    }
    let ghost before = v@;
    v.push(c);
    proof {
        lemma_cvs_ext(v@, m.push((kv, vv)));
    }
}

/// The usage template of a command at `path`: its own usage string, or a
/// generated one.
pub open spec fn usage_or_default(c: CommandV, program: Seq<char>, path: Seq<Seq<char>>) -> Seq<
    char,
> {
    match c.usage {
        Some(u) => u,
        None => if c.subcommands.len() > 0 && !c.has_handler {
            program + " "@ + join(path, " "@) + " <subcommand>"@
        } else {
            program + " "@ + join(path, " "@) + " [--flag=<value>] [args...]"@
        },
    }
}

impl<H> Command<H> {
    pub fn new(name: &str, description: &str) -> (r: Command<H>)
        ensures
            r@ == (CommandV {
                name: name@,
                description: description@,
                usage: None,
                has_handler: false,
                default_next_actions: Seq::empty(),
                subcommands: Seq::empty(),
                apply_projection: true,
            }),
            r.handler_value() is None,
    {
        let r = Command {
            name: owned(name),
            description: owned(description),
            usage: None,
            handler: None,
            default_next_actions: Vec::new(),
            subcommands: Vec::new(),
            apply_reserved_projection: true,
        };
        assert(actions_view(r.default_next_actions@) =~= Seq::<NextActionV>::empty());
        assert(cvs(r.subcommands@) =~= Seq::<(Seq<char>, CommandV)>::empty());
        r
    }

    pub fn usage(self, usage: &str) -> (r: Command<H>)
        ensures
            r@ == (CommandV { usage: Some(usage@), ..self@ }),
            r.handler_value() == self.handler_value(),
    {
        Command { usage: Some(owned(usage)), ..self }
    }

    /// Attaches the handler.
    pub fn handler(self, handler: H) -> (r: Command<H>)
        ensures
            r@ == (CommandV { has_handler: true, ..self@ }),
            r.handler_value() == Some(handler),
    {
        Command { handler: Some(handler), ..self }
    }

    /// Adds a subcommand; a name may be used once.
    pub fn subcommand(self, command: Command<H>) -> (r: Command<H>)
        requires
            obj_get(self@.subcommands, command@.name) is None,
        ensures
            r@ == (CommandV {
                subcommands: obj_insert(self@.subcommands, command@.name, command@),
                ..self@
            }),
            r.handler_value() == self.handler_value(),
    {
        let mut s = self;
        commands_insert(&mut s.subcommands, command);
        s
    }

    pub fn default_next_action(self, action: NextAction) -> (r: Command<H>)
        ensures
            r@ == (CommandV {
                default_next_actions: self@.default_next_actions.push(action@),
                ..self@
            }),
            r.handler_value() == self.handler_value(),
    {
        let mut s = self;
        let ghost before = s.default_next_actions@;
        s.default_next_actions.push(action);
        proof {
            assert(actions_view(s.default_next_actions@) =~= actions_view(before).push(action@));
        }
        s
    }

    /// Keeps the reserved `--select`/`--compact` projection off this
    /// command's result.
    pub fn without_reserved_projection(self) -> (r: Command<H>)
        ensures
            r@ == (CommandV { apply_projection: false, ..self@ }),
            r.handler_value() == self.handler_value(),
    {
        Command { apply_reserved_projection: false, ..self }
    }

    pub fn name(&self) -> (r: &str)
        ensures
            r@ == self@.name,
    {
        self.name.as_str()
    }

    pub fn description(&self) -> (r: &str)
        ensures
            r@ == self@.description,
    {
        self.description.as_str()
    }

    /// The subcommands, ordered by name.
    pub fn subcommands(&self) -> (r: &Vec<Command<H>>)
        ensures
            cvs(r@) == self@.subcommands,
    {
        &self.subcommands
    }

    /// The handler attached to this command.
    pub closed spec fn handler_value(&self) -> Option<H> {
        self.handler
    }

    /// The handler, when one is attached.
    pub fn handler_ref(&self) -> (r: Option<&H>)
        ensures
            r is Some == self@.has_handler,
            match r {
                Some(h) => self.handler_value() == Some(*h),
                None => self.handler_value() is None,
            },
    {
        match &self.handler {
            Some(h) => Some(h),
            None => None,
        }
    }

    /// The usage template at `path` (see [`usage_or_default`]).
    pub fn usage_or_default(&self, program: &str, path: &[&str]) -> (r: String)
        ensures
            r@ == usage_or_default(self@, program@, crate::suggest::str_views(path@)),
    {
        if let Some(usage) = &self.usage {
            return usage.clone();
        }
        let joined = crate::suggest::join_strs(path, " ");
        let mut r = String::new();
        push_str(&mut r, program);
        push_str(&mut r, " ");
        push_str(&mut r, joined.as_str());
        proof {
            lemma_cvs(self.subcommands@);
        }
        if self.subcommands.len() > 0 && self.handler.is_none() {
            push_str(&mut r, " <subcommand>");
        } else {
            push_str(&mut r, " [--flag=<value>] [args...]");
        }
        r
    }
}

// ---------------------------------------------------------------------------
// The CLI
// ---------------------------------------------------------------------------

/// Model of an [`AgentCli`].
pub ghost struct CliV {
    pub name: Seq<char>,
    pub description: Seq<char>,
    pub version: Option<Seq<char>>,
    pub schema_version: Option<Seq<char>>,
    pub commands: Seq<(Seq<char>, CommandV)>,
    pub root_extra: Seq<(Seq<char>, JsonV)>,
    pub reserved_flags: bool,
}

/// Agent-native CLI runtime, generic over the handlers its commands run.
pub struct AgentCli<H> {
    name: String,
    description: String,
    version: Option<String>,
    schema_version: Option<String>,
    /// Ordered by name; no name twice.
    commands: Vec<Command<H>>,
    root_extra: Vec<(String, Json)>,
    reserved_flags: bool,
}

impl<H> View for AgentCli<H> {
    type V = CliV;

    closed spec fn view(&self) -> CliV {
        CliV {
            name: self.name@,
            description: self.description@,
            version: opt_str(self.version),
            schema_version: opt_str(self.schema_version),
            commands: cvs(self.commands@),
            root_extra: jes(self.root_extra@),
            reserved_flags: self.reserved_flags,
        }
    }
}

/// An action that runs `program` itself.
pub open spec fn inspect_action(program: Seq<char>, description: Seq<char>) -> NextActionV {
    NextActionV { command: program, description, params: None }
}

/// The action template of command `c` at `path`.
pub open spec fn command_action(program: Seq<char>, path: Seq<Seq<char>>, c: CommandV) -> NextActionV {
    crate::usage::action_from_usage(usage_or_default(c, program, path), c.description)
}

/// The actions offered from the root: one template per command, or the root
/// itself when there are none.
pub open spec fn root_actions_model(cli: CliV) -> Seq<NextActionV> {
    if cli.commands.len() == 0 {
        seq![inspect_action(cli.name, "Inspect root command tree"@)]
    } else {
        cli.commands.map_values(
            |p: (Seq<char>, CommandV)| command_action(cli.name, seq![p.1.name], p.1),
        )
    }
}

/// The actions of a command: its declared defaults, else its own template
/// and the root.
pub open spec fn default_actions_model(cli: CliV, path: Seq<Seq<char>>, c: CommandV) -> Seq<NextActionV> {
    if c.default_next_actions.len() > 0 {
        c.default_next_actions
    } else {
        seq![
            crate::usage::action_from_usage(
                usage_or_default(c, cli.name, path),
                "Run this command template"@,
            ),
            inspect_action(cli.name, "Inspect the full command tree"@),
        ]
    }
}

/// The actions a handler gave, or the command's defaults when it gave none.
pub open spec fn ensure_actions_model(
    cli: CliV,
    actions: Seq<NextActionV>,
    path: Seq<Seq<char>>,
    c: CommandV,
) -> Seq<NextActionV> {
    if actions.len() == 0 {
        default_actions_model(cli, path, c)
    } else {
        actions
    }
}

/// The actions offered for a command with subcommands: one template per
/// subcommand, then the root.
pub open spec fn subcommand_actions_model(cli: CliV, path: Seq<Seq<char>>, c: CommandV) -> Seq<
    NextActionV,
> {
    if c.subcommands.len() == 0 {
        default_actions_model(cli, path, c)
    } else {
        c.subcommands.map_values(
            |p: (Seq<char>, CommandV)| command_action(cli.name, path.push(p.1.name), p.1),
        ).push(inspect_action(cli.name, "Inspect the full command tree"@))
    }
}

/// How many leading tokens name a command path.
pub open spec fn resolve_depth(cmds: Seq<(Seq<char>, CommandV)>, toks: Seq<Seq<char>>) -> nat
    decreases toks.len(),
{
    if toks.len() == 0 {
        0
    } else {
        match obj_get(cmds, toks[0]) {
            None => 0,
            Some(c) => 1 + resolve_depth(c.subcommands, toks.drop_first()),
        }
    }
}

/// The command the leading tokens name, if any.
pub open spec fn resolve_target(cmds: Seq<(Seq<char>, CommandV)>, toks: Seq<Seq<char>>) -> Option<
    CommandV,
>
    decreases toks.len(),
{
    if toks.len() == 0 {
        None
    } else {
        match obj_get(cmds, toks[0]) {
            None => None,
            Some(c) => match resolve_target(c.subcommands, toks.drop_first()) {
                None => Some(c),
                Some(d) => Some(d),
            },
        }
    }
}

pub proof fn lemma_resolve(cmds: Seq<(Seq<char>, CommandV)>, toks: Seq<Seq<char>>)
    ensures
        resolve_depth(cmds, toks) <= toks.len(),
        (resolve_depth(cmds, toks) == 0) == (resolve_target(cmds, toks) is None),
    decreases toks.len(),
{
    if toks.len() > 0 {
        match obj_get(cmds, toks[0]) {
            None => {},
            Some(c) => lemma_resolve(c.subcommands, toks.drop_first()),
        }
    }
}

/// The names of a list of commands.
pub open spec fn command_names(cmds: Seq<(Seq<char>, CommandV)>) -> Seq<Seq<char>> {
    cmds.map_values(|p: (Seq<char>, CommandV)| p.1.name)
}

impl<H> AgentCli<H> {
    pub fn new(name: &str, description: &str) -> (r: AgentCli<H>)
        ensures
            r@ == (CliV {
                name: name@,
                description: description@,
                version: None,
                schema_version: None,
                commands: Seq::empty(),
                root_extra: Seq::empty(),
                reserved_flags: true,
            }),
    {
        let r = AgentCli {
            name: owned(name),
            description: owned(description),
            version: None,
            schema_version: None,
            commands: Vec::new(),
            root_extra: Vec::new(),
            reserved_flags: true,
        };
        assert(cvs(r.commands@) =~= Seq::<(Seq<char>, CommandV)>::empty());
        assert(jes(r.root_extra@) =~= Seq::<(Seq<char>, JsonV)>::empty());
        r
    }

    pub fn version(self, version: &str) -> (r: AgentCli<H>)
        ensures
            r@ == (CliV { version: Some(version@), ..self@ }),
    {
        AgentCli { version: Some(owned(version)), ..self }
    }

    /// Turns the framework-reserved agent flags on or off (on by default).
    pub fn reserved_flags(self, enabled: bool) -> (r: AgentCli<H>)
        ensures
            r@ == (CliV { reserved_flags: enabled, ..self@ }),
    {
        AgentCli { reserved_flags: enabled, ..self }
    }

    pub fn schema_version(self, version: &str) -> (r: AgentCli<H>)
        ensures
            r@ == (CliV { schema_version: Some(version@), ..self@ }),
    {
        AgentCli { schema_version: Some(owned(version)), ..self }
    }

    /// Adds a top-level command; a name may be used once.
    pub fn command(self, command: Command<H>) -> (r: AgentCli<H>)
        requires
            obj_get(self@.commands, command@.name) is None,
        ensures
            r@ == (CliV { commands: obj_insert(self@.commands, command@.name, command@), ..self@ }),
    {
        let mut s = self;
        commands_insert(&mut s.commands, command);
        s
    }

    /// Adds an extra field to the root document; the core keys always win
    /// over it.
    pub fn root_field(self, key: &str, value: Json) -> (r: AgentCli<H>)
        ensures
            r@ == (CliV { root_extra: obj_insert(self@.root_extra, key@, value@), ..self@ }),
    {
        let mut s = self;
        crate::json::obj_insert_exec(&mut s.root_extra, owned(key), value);
        s
    }

    /// Registers the built-in `doctor` command: `handler` runs the checks and
    /// reports them with [`crate::doctor::doctor_report`]. Its result is
    /// never narrowed by `--select`/`--compact`.
    pub fn doctor(self, handler: H) -> (r: AgentCli<H>)
        requires
            obj_get(self@.commands, "doctor"@) is None,
        ensures
            r@ == (CliV {
                commands: obj_insert(
                    self@.commands,
                    "doctor"@,
                    CommandV {
                        name: "doctor"@,
                        description: "Run environment health checks"@,
                        usage: Some(self@.name + " doctor"@),
                        has_handler: true,
                        default_next_actions: Seq::empty(),
                        subcommands: Seq::empty(),
                        apply_projection: false,
                    },
                ),
                ..self@
            }),
    {
        let mut usage = String::new();
        push_str(&mut usage, self.name.as_str());
        push_str(&mut usage, " doctor");
        let command = Command::new("doctor", "Run environment health checks").usage(
            usage.as_str(),
        ).handler(handler).without_reserved_projection();
        self.command(command)
    }

    pub fn name(&self) -> (r: &str)
        ensures
            r@ == self@.name,
    {
        self.name.as_str()
    }

    pub fn description(&self) -> (r: &str)
        ensures
            r@ == self@.description,
    {
        self.description.as_str()
    }

    pub fn version_text(&self) -> (r: Option<&str>)
        ensures
            match r {
                Some(v) => self@.version == Some(v@),
                None => self@.version is None,
            },
    {
        match &self.version {
            Some(v) => Some(v.as_str()),
            None => None,
        }
    }

    /// Whether the reserved agent flags are on.
    pub fn reserved_flags_enabled(&self) -> (r: bool)
        ensures
            r == self@.reserved_flags,
    {
        self.reserved_flags
    }

    /// The top-level commands, ordered by name.
    pub fn commands(&self) -> (r: &Vec<Command<H>>)
        ensures
            cvs(r@) == self@.commands,
    {
        &self.commands
    }

    /// The actions offered from the root (see [`root_actions_model`]).
    pub fn root_actions(&self) -> (r: Vec<NextAction>)
        ensures
            actions_view(r@) == root_actions_model(self@),
    {
        proof {
            lemma_cvs(self.commands@);
        }
        if self.commands.len() == 0 {
            let r = vec![NextAction::new(self.name.as_str(), "Inspect root command tree")];
            assert(actions_view(r@) =~= root_actions_model(self@));
            return r;
        }
        let ghost m = cvs(self.commands@);
        let mut r: Vec<NextAction> = Vec::new();
        let mut i: usize = 0;
        while i < self.commands.len()
            invariant
                m == cvs(self.commands@),
                m.len() == self.commands@.len(),
                forall|q: int| 0 <= q < self.commands@.len() ==> #[trigger] m[q] == (self.commands@[q].name@, cv(self.commands@[q])),
                i <= self.commands.len(),
                r@.len() == i,
                forall|q: int| 0 <= q < i ==> #[trigger] r@[q]@ == command_action(self.name@, seq![m[q].1.name], m[q].1),
            decreases self.commands.len() - i,
        {
            let c = &self.commands[i];
            let path = [c.name.as_str()];
            let usage = c.usage_or_default(self.name.as_str(), &path);
            proof {
                assert(crate::suggest::str_views(path@) =~= seq![m[i as int].1.name]);
            }
            r.push(crate::usage::next_action_from_usage(usage.as_str(), c.description.as_str()));
            i = i + 1;
        }
        assert(actions_view(r@) =~= root_actions_model(self@));
        r
    }

    /// The actions of `command` at `path` (see [`default_actions_model`]).
    pub fn default_command_actions(&self, path: &[&str], command: &Command<H>) -> (r: Vec<NextAction>)
        ensures
            actions_view(r@) == default_actions_model(
                self@,
                crate::suggest::str_views(path@),
                command@,
            ),
    {
        if command.default_next_actions.len() > 0 {
            return duplicate_actions(&command.default_next_actions);
        }
        let usage = command.usage_or_default(self.name.as_str(), path);
        let r = vec![
            crate::usage::next_action_from_usage(usage.as_str(), "Run this command template"),
            NextAction::new(self.name.as_str(), "Inspect the full command tree"),
        ];
        assert(actions_view(r@) =~= default_actions_model(
            self@,
            crate::suggest::str_views(path@),
            command@,
        ));
        r
    }

    /// The handler's actions, or the command's defaults when it gave none.
    pub fn ensure_next_actions(&self, actions: Vec<NextAction>, path: &[&str], command: &Command<H>) -> (r:
        Vec<NextAction>)
        ensures
            actions_view(r@) == ensure_actions_model(
                self@,
                actions_view(actions@),
                crate::suggest::str_views(path@),
                command@,
            ),
    {
        if actions.len() == 0 {
            self.default_command_actions(path, command)
        } else {
            actions
        }
    }

    /// The actions for a command with subcommands (see
    /// [`subcommand_actions_model`]).
    pub fn subcommand_actions(&self, path: &[&str], command: &Command<H>) -> (r: Vec<NextAction>)
        ensures
            actions_view(r@) == subcommand_actions_model(
                self@,
                crate::suggest::str_views(path@),
                command@,
            ),
    {
        proof {
            lemma_cvs(command.subcommands@);
        }
        if command.subcommands.len() == 0 {
            return self.default_command_actions(path, command);
        }
        let ghost pv = crate::suggest::str_views(path@);
        let ghost m = cvs(command.subcommands@);
        let mut r: Vec<NextAction> = Vec::new();
        let mut i: usize = 0;
        while i < command.subcommands.len()
            invariant
                pv == crate::suggest::str_views(path@),
                m == cvs(command.subcommands@),
                m.len() == command.subcommands@.len(),
                forall|q: int| 0 <= q < command.subcommands@.len() ==> #[trigger] m[q] == (command.subcommands@[q].name@, cv(command.subcommands@[q])),
                i <= command.subcommands.len(),
                r@.len() == i,
                forall|q: int| 0 <= q < i ==> #[trigger] r@[q]@ == command_action(self.name@, pv.push(m[q].1.name), m[q].1),
            decreases command.subcommands.len() - i,
        {
            let sub = &command.subcommands[i];
            let mut buf: Vec<&str> = Vec::new();
            let mut k: usize = 0;
            while k < path.len()
                invariant
                    k <= path.len(),
                    buf@ == path@.take(k as int),
                decreases path.len() - k,
            {
                buf.push(path[k]);
                k = k + 1;
            }
            buf.push(sub.name.as_str());
            proof {
                assert(path@.take(k as int) =~= path@);
                assert(crate::suggest::str_views(buf@) =~= pv.push(m[i as int].1.name));
            }
            let usage = sub.usage_or_default(self.name.as_str(), buf.as_slice());
            r.push(crate::usage::next_action_from_usage(usage.as_str(), sub.description.as_str()));
            i = i + 1;
        }
        let ghost body = r@;
        r.push(NextAction::new(self.name.as_str(), "Inspect the full command tree"));
        assert(actions_view(r@) =~= subcommand_actions_model(self@, pv, command@));
        r
    }

    /// The command object that `path` names in this CLI's tree (see
    /// [`command_at`]).
    pub closed spec fn command_at_path(&self, path: Seq<Seq<char>>) -> Option<Command<H>> {
        command_at(self.commands@, path)
    }

    /// Walks `positionals` down the command tree: the command reached (if
    /// any) and how many tokens named it.
    pub fn resolve_command(&self, positionals: &[String]) -> (r: (Option<&Command<H>>, usize))
        ensures
            r.1 == resolve_depth(self@.commands, views(positionals@)),
            match r.0 {
                Some(c) => resolve_target(self@.commands, views(positionals@)) == Some(c@)
                    && self.command_at_path(views(positionals@).take(r.1 as int)) == Some(*c),
                None => resolve_target(self@.commands, views(positionals@)) is None,
            },
    {
        let ghost toks = views(positionals@);
        let ghost root = cvs(self.commands@);
        let mut cmds: &Vec<Command<H>> = &self.commands;
        let mut current: Option<&Command<H>> = None;
        let mut i: usize = 0;
        proof {
            assert(toks.skip(0) =~= toks);
        }
        while i < positionals.len()
            invariant
                toks == views(positionals@),
                root == cvs(self.commands@),
                i <= positionals.len(),
                resolve_depth(root, toks) == i + resolve_depth(cvs(cmds@), toks.skip(i as int)),
                resolve_target(root, toks) == match resolve_target(cvs(cmds@), toks.skip(i as int)) {
                    None => match current {
                        Some(c) => Some(c@),
                        None => None,
                    },
                    Some(d) => Some(d),
                },
                i > 0 ==> current is Some,
                current matches Some(c) ==> cvs(cmds@) == c@.subcommands,
                current matches Some(c) ==> cmds@ == c.subcommands@ && command_at(
                    self.commands@,
                    toks.take(i as int),
                ) == Some(*c),
                current is None ==> cmds@ == self.commands@,
            decreases positionals.len() - i,
        {
            proof {
                assert(toks.skip(i as int).drop_first() =~= toks.skip(i + 1));
                assert(toks.skip(i as int)[0] == positionals@[i as int]@);
            }
            match find_command(cmds, positionals[i].as_str()) {
                None => {
                    return (current, i);
                },
                Some(k) => {
                    let found = &cmds[k];
                    proof {
                        assert(toks.take(i + 1).drop_last() =~= toks.take(i as int));
                        assert(toks.take(i + 1).last() == positionals@[i as int]@);
                        assert(toks.take(i + 1).len() == i + 1);
                        if i == 0 {
                            assert(toks.take(1)[0] == positionals@[0]@);
                        }
                    }
                    current = Some(found);
                    cmds = &found.subcommands;
                },
            }
            i = i + 1;
        }
        proof {
            assert(toks.skip(i as int) =~= Seq::<Seq<char>>::empty());
        }
        (current, i)
    }

    /// The names of the top-level commands.
    pub fn command_names(&self) -> (r: Vec<&str>)
        ensures
            crate::suggest::str_views(r@) == command_names(self@.commands),
    {
        names_of(&self.commands)
    }
}

/// The names of `v`, in order.
fn names_of<H>(v: &Vec<Command<H>>) -> (r: Vec<&str>)
    ensures
        crate::suggest::str_views(r@) == command_names(cvs(v@)),
{
    proof {
        lemma_cvs(v@);
    }
    let mut r: Vec<&str> = Vec::new();
    let mut i: usize = 0;
    while i < v.len()
        invariant
            cvs(v@).len() == v@.len(),
            forall|q: int| 0 <= q < v@.len() ==> #[trigger] cvs(v@)[q] == (v@[q].name@, cv(v@[q])),
            i <= v.len(),
            r@.len() == i,
            forall|q: int| 0 <= q < i ==> #[trigger] r@[q]@ == v@[q].name@,
        decreases v.len() - i,
    {
        r.push(v[i].name.as_str());
        i = i + 1;
    }
    assert(crate::suggest::str_views(r@) =~= command_names(cvs(v@)));
    r
}

// ---------------------------------------------------------------------------
// Whether an action template resolves
// ---------------------------------------------------------------------------

/// Splits `s` at whitespace: the words completed and the word being read.
pub open spec fn ws_scan(s: Seq<char>) -> (Seq<Seq<char>>, Seq<char>)
    decreases s.len(),
{
    if s.len() == 0 {
        (Seq::empty(), Seq::empty())
    } else {
        let (done, cur) = ws_scan(s.drop_last());
        if crate::timestamp::is_whitespace(s.last()) {
            (if cur.len() > 0 { done.push(cur) } else { done }, Seq::empty())
        } else {
            (done, cur.push(s.last()))
        }
    }
}

/// The whitespace-separated words of `s`.
pub open spec fn words(s: Seq<char>) -> Seq<Seq<char>> {
    let (done, cur) = ws_scan(s);
    if cur.len() > 0 {
        done.push(cur)
    } else {
        done
    }
}

/// The whitespace-separated words of `s`.
pub fn split_words(s: &str) -> (r: Vec<String>)
    ensures
        views(r@) == words(s@),
{
    let cs = crate::text::chars_of(s);
    let mut done: Vec<String> = Vec::new();
    let mut cur: Vec<char> = Vec::new();
    let mut i: usize = 0;
    while i < cs.len()
        invariant
            cs@ == s@,
            i <= cs.len(),
            (views(done@), cur@) == ws_scan(s@.take(i as int)),
        decreases cs.len() - i,
    {
        proof {
            assert(s@.take(i + 1).drop_last() =~= s@.take(i as int));
        }
        if crate::timestamp::is_whitespace_exec(cs[i]) {
            if cur.len() > 0 {
                let w = crate::text::string_of(cur.as_slice());
                proof {
                    assert(views(done@.push(w)) =~= views(done@).push(w@));
                }
                done.push(w);
            }
            cur = Vec::new();
        } else {
            cur.push(cs[i]);
        }
        i = i + 1;
    }
    proof {
        assert(s@.take(i as int) =~= s@);
    }
    if cur.len() > 0 {
        let w = crate::text::string_of(cur.as_slice());
        proof {
            assert(views(done@.push(w)) =~= views(done@).push(w@));
        }
        done.push(w);
    }
    done
}

/// A token that ends the command part of a template: a placeholder, an
/// option, or a `key=value`.
pub open spec fn stops_walk(t: Seq<char>) -> bool {
    (t.len() > 0 && (t[0] == '<' || t[0] == '[' || t[0] == '-')) || t.contains('=')
}

fn stops_walk_exec(t: &str) -> (r: bool)
    ensures
        r == stops_walk(t@),
{
    let cs = crate::text::chars_of(t);
    proof {
        crate::invocation::lemma_pos_of(cs@, '=');
    }
    (cs.len() > 0 && (cs[0] == '<' || cs[0] == '[' || cs[0] == '-')) || crate::invocation::find_char(
        cs.as_slice(),
        '=',
    ).is_some()
}

/// Walks command tokens down the tree until a stop token; false when a
/// token names no command.
pub open spec fn walk_resolves(cmds: Seq<(Seq<char>, CommandV)>, toks: Seq<Seq<char>>, matched: bool) -> bool
    decreases toks.len(),
{
    if toks.len() == 0 || stops_walk(toks[0]) {
        matched
    } else {
        match obj_get(cmds, toks[0]) {
            None => false,
            Some(c) => walk_resolves(c.subcommands, toks.drop_first(), true),
        }
    }
}

/// A `next_action` template resolves when, after an optional leading program
/// name, its leading command tokens name a real command, or when nothing
/// follows the program name (the root affordance).
pub open spec fn resolves_model(cli: CliV, template: Seq<char>) -> bool {
    let w = words(template);
    let toks = if w.len() > 0 && w[0] == cli.name {
        w.drop_first()
    } else {
        w
    };
    toks.len() == 0 || walk_resolves(cli.commands, toks, false)
}

// ---------------------------------------------------------------------------
// Self-documentation
// ---------------------------------------------------------------------------

/// One command's entry in the command tree document.
pub open spec fn doc_json(name: Seq<char>, description: Seq<char>, usage: Seq<char>, subs: Seq<JsonV>) -> JsonV {
    let base = seq![
        ("name"@, JsonV::Str(name)),
        ("description"@, JsonV::Str(description)),
        ("usage"@, JsonV::Str(usage)),
    ];
    JsonV::Object(
        obj_from_seq(
            if subs.len() > 0 {
                base.push(("subcommands"@, JsonV::Array(subs)))
            } else {
                base
            },
        ),
    )
}

pub open spec fn obj_from_seq(e: Seq<(Seq<char>, JsonV)>) -> Seq<(Seq<char>, JsonV)> {
    crate::json::obj_from(e)
}

/// The command tree document of `cmds` under `path`, `depth` levels down;
/// nothing below the maximum depth is listed.
pub open spec fn docs_model(program: Seq<char>, path: Seq<Seq<char>>, cmds: Seq<(Seq<char>, CommandV)>, depth: int) -> Seq<
    JsonV,
>
    decreases MAX_COMMAND_DEPTH - depth, cmds.len(),
{
    if depth >= MAX_COMMAND_DEPTH || cmds.len() == 0 {
        Seq::empty()
    } else {
        let c = cmds.last().1;
        let p = path.push(c.name);
        docs_model(program, path, cmds.drop_last(), depth).push(
            doc_json(
                c.name,
                c.description,
                usage_or_default(c, program, p),
                docs_model(program, p, c.subcommands, depth + 1),
            ),
        )
    }
}

/// The `agent_flags` entries of the root document.
pub open spec fn agent_flags_json() -> Seq<JsonV> {
    crate::usage::reserved_flag_docs_model().map_values(
        |p: (Seq<char>, Seq<char>)|
            JsonV::Object(
                crate::json::obj_from(
                    seq![("flag"@, JsonV::Str(p.0)), ("description"@, JsonV::Str(p.1))],
                ),
            ),
    )
}

/// The root document: the extra root fields, overridden by the core keys
/// `description`, `version`, `commands` and, with the reserved flags on,
/// `agent_flags`.
pub open spec fn root_result_model(cli: CliV, program: Seq<char>) -> JsonV {
    let core = seq![("description"@, JsonV::Str(cli.description))] + match cli.version {
        Some(v) => seq![("version"@, JsonV::Str(v))],
        None => Seq::empty(),
    } + seq![("commands"@, JsonV::Array(docs_model(program, Seq::empty(), cli.commands, 0)))]
        + if cli.reserved_flags {
        seq![("agent_flags"@, JsonV::Array(agent_flags_json()))]
    } else {
        Seq::empty()
    };
    JsonV::Object(crate::json::obj_from(cli.root_extra + core))
}

/// Builds one tree-document entry.
fn doc_json_exec(name: &str, description: &str, usage: String, subs: Vec<Json>) -> (r: Json)
    ensures
        r@ == doc_json(name@, description@, usage@, crate::json::jvs(subs@)),
{
    proof {
        crate::json::lemma_jvs(subs@);
    }
    let mut e: Vec<(String, Json)> = Vec::new();
    e.push((owned("name"), Json::Str(owned(name))));
    e.push((owned("description"), Json::Str(owned(description))));
    e.push((owned("usage"), Json::Str(usage)));
    let ghost sv = crate::json::jvs(subs@);
    if subs.len() > 0 {
        e.push((owned("subcommands"), Json::Array(subs)));
    }
    proof {
        let base = seq![
            ("name"@, JsonV::Str(name@)),
            ("description"@, JsonV::Str(description@)),
            ("usage"@, JsonV::Str(usage@)),
        ];
        let full = if sv.len() > 0 {
            base.push(("subcommands"@, JsonV::Array(sv)))
        } else {
            base
        };
        crate::json::lemma_jes_ext(e@, full);
    }
    Json::from_entries(e)
}

impl<H> AgentCli<H> {
    /// The tree document of `cmds` under `path` (see [`docs_model`]).
    pub fn command_docs_into(&self, program: &str, path: &Vec<String>, cmds: &Vec<Command<H>>, depth: usize) -> (r:
        Vec<Json>)
        ensures
            crate::json::jvs(r@) == docs_model(program@, views(path@), cvs(cmds@), depth as int),
        decreases MAX_COMMAND_DEPTH - depth,
    {
        let ghost m = cvs(cmds@);
        proof {
            lemma_cvs(cmds@);
        }
        let mut out: Vec<Json> = Vec::new();
        if depth >= MAX_COMMAND_DEPTH {
            proof {
                assert(crate::json::jvs(out@) =~= Seq::<JsonV>::empty());
            }
            return out;
        }
        let mut i: usize = 0;
        proof {
            assert(m.take(0) =~= Seq::<(Seq<char>, CommandV)>::empty());
            assert(crate::json::jvs(out@) =~= Seq::<JsonV>::empty());
        }
        while i < cmds.len()
            invariant
                depth < MAX_COMMAND_DEPTH,
                m == cvs(cmds@),
                m.len() == cmds@.len(),
                forall|q: int| 0 <= q < cmds@.len() ==> #[trigger] m[q] == (cmds@[q].name@, cv(cmds@[q])),
                i <= cmds.len(),
                crate::json::jvs(out@) == docs_model(program@, views(path@), m.take(i as int), depth as int),
            decreases cmds.len() - i,
        {
            let c = &cmds[i];
            let mut p: Vec<String> = Vec::new();
            let mut k: usize = 0;
            while k < path.len()
                invariant
                    k <= path.len(),
                    views(p@) == views(path@).take(k as int),
                decreases path.len() - k,
            {
                let item = path[k].clone();
                proof {
                    assert(views(p@.push(item)) =~= views(p@).push(item@));
                    assert(views(path@).take(k + 1) =~= views(path@).take(k as int).push(path@[k as int]@));
                }
                p.push(item);
                k = k + 1;
            }
            let ghost before = p@;
            p.push(c.name.clone());
            proof {
                assert(views(p@) =~= views(before).push(p@.last()@));
                assert(views(path@).take(k as int) =~= views(path@));
                assert(views(p@) =~= views(path@).push(m[i as int].1.name));
            }
            let mut refs: Vec<&str> = Vec::new();
            let mut j: usize = 0;
            while j < p.len()
                invariant
                    j <= p.len(),
                    refs@.len() == j,
                    forall|q: int| 0 <= q < j ==> #[trigger] refs@[q]@ == p@[q]@,
                decreases p.len() - j,
            {
                refs.push(p[j].as_str());
                j = j + 1;
            }
            proof {
                assert(crate::suggest::str_views(refs@) =~= views(p@));
            }
            let usage = c.usage_or_default(program, refs.as_slice());
            let subs = self.command_docs_into(program, &p, &c.subcommands, depth + 1);
            let doc = doc_json_exec(c.name.as_str(), c.description.as_str(), usage, subs);
            proof {
                crate::json::lemma_jvs_push(out@, doc);
                assert(m.take(i + 1).drop_last() =~= m.take(i as int));
                assert(m.take(i + 1).last() == m[i as int]);
            }
            out.push(doc);
            i = i + 1;
        }
        proof {
            assert(m.take(i as int) =~= m);
        }
        out
    }

    /// The root document (see [`root_result_model`]).
    pub fn root_result(&self, program: &str) -> (r: Json)
        ensures
            r@ == root_result_model(self@, program@),
    {
        let ghost extra = jes(self.root_extra@);
        proof {
            crate::json::lemma_jes(self.root_extra@);
        }
        let mut entries: Vec<(String, Json)> = Vec::new();
        let mut i: usize = 0;
        while i < self.root_extra.len()
            invariant
                extra == jes(self.root_extra@),
                extra.len() == self.root_extra@.len(),
                forall|q: int| 0 <= q < self.root_extra@.len() ==> #[trigger] extra[q] == (self.root_extra@[q].0@, crate::json::jv(self.root_extra@[q].1)),
                i <= self.root_extra.len(),
                entries@.len() == i,
                forall|q: int| 0 <= q < i ==> (#[trigger] entries@[q].0@, crate::json::jv(entries@[q].1)) == extra[q],
            decreases self.root_extra.len() - i,
        {
            entries.push((self.root_extra[i].0.clone(), self.root_extra[i].1.deep_clone()));
            i = i + 1;
        }
        let ghost n0 = entries@.len();
        entries.push((owned("description"), Json::Str(self.description.clone())));
        if let Some(v) = &self.version {
            entries.push((owned("version"), Json::Str(v.clone())));
        }
        let empty: Vec<String> = Vec::new();
        let docs = self.command_docs_into(program, &empty, &self.commands, 0);
        proof {
            assert(views(empty@) =~= Seq::<Seq<char>>::empty());
        }
        let ghost dv = crate::json::jvs(docs@);
        entries.push((owned("commands"), Json::Array(docs)));
        if self.reserved_flags {
            let flag_docs = crate::usage::reserved_flag_docs();
            let mut flags: Vec<Json> = Vec::new();
            let mut k: usize = 0;
            while k < flag_docs.len()
                invariant
                    k <= flag_docs.len(),
                    flag_docs@.map_values(|p: (&'static str, &'static str)| (p.0@, p.1@)) == crate::usage::reserved_flag_docs_model(),
                    crate::json::jvs(flags@) == agent_flags_json().take(k as int),
                decreases flag_docs.len() - k,
            {
                let mut e: Vec<(String, Json)> = Vec::new();
                e.push((owned("flag"), Json::Str(owned(flag_docs[k].0))));
                e.push((owned("description"), Json::Str(owned(flag_docs[k].1))));
                proof {
                    crate::json::lemma_jes_ext(
                        e@,
                        seq![("flag"@, JsonV::Str(flag_docs@[k as int].0@)), ("description"@, JsonV::Str(flag_docs@[k as int].1@))],
                    );
                }
                let j = Json::from_entries(e);
                proof {
                    crate::json::lemma_jvs_push(flags@, j);
                    assert(crate::usage::reserved_flag_docs_model()[k as int] == (flag_docs@[k as int].0@, flag_docs@[k as int].1@));
                    assert(agent_flags_json().take(k + 1) =~= agent_flags_json().take(k as int).push(crate::json::jv(j)));
                }
                flags.push(j);
                k = k + 1;
            }
            proof {
                assert(agent_flags_json().take(k as int) =~= agent_flags_json());
            }
            entries.push((owned("agent_flags"), Json::Array(flags)));
        }
        proof {
            let core = seq![("description"@, JsonV::Str(self@.description))] + match self@.version {
                Some(v) => seq![("version"@, JsonV::Str(v))],
                None => Seq::empty(),
            } + seq![("commands"@, JsonV::Array(dv))] + if self@.reserved_flags {
                seq![("agent_flags"@, JsonV::Array(agent_flags_json()))]
            } else {
                Seq::empty()
            };
            crate::json::lemma_jes_ext(entries@, extra + core);
        }
        Json::from_entries(entries)
    }
}

// ---------------------------------------------------------------------------
// Audit
// ---------------------------------------------------------------------------

pub open spec fn finding(
    severity: crate::audit::AuditSeverity,
    code: Seq<char>,
    command: Seq<char>,
    message: Seq<char>,
) -> crate::audit::FindingV {
    crate::audit::FindingV { severity, code, command, message }
}

/// A `DANGLING_NEXT_ACTION` error for each declared action that does not
/// resolve.
pub open spec fn dangling_findings(cli: CliV, actions: Seq<NextActionV>, path: Seq<char>) -> Seq<
    crate::audit::FindingV,
>
    decreases actions.len(),
{
    if actions.len() == 0 {
        Seq::empty()
    } else {
        let prev = dangling_findings(cli, actions.drop_last(), path);
        let a = actions.last();
        if resolves_model(cli, a.command) {
            prev
        } else {
            prev.push(
                finding(
                    crate::audit::AuditSeverity::Error,
                    "DANGLING_NEXT_ACTION"@,
                    path,
                    "default next_action `"@ + a.command + "` does not resolve to a known command"@,
                ),
            )
        }
    }
}

/// What the audit finds on one command (not its subcommands).
pub open spec fn own_findings(cli: CliV, c: CommandV, path: Seq<char>) -> Seq<crate::audit::FindingV> {
    (if !c.has_handler && c.subcommands.len() == 0 {
        seq![
            finding(
                crate::audit::AuditSeverity::Error,
                "DEAD_END_COMMAND"@,
                path,
                "command has neither a handler nor subcommands; invoking it always errors"@,
            ),
        ]
    } else {
        Seq::empty()
    }) + (if crate::timestamp::trim(c.description).len() == 0 {
        seq![
            finding(
                crate::audit::AuditSeverity::Warning,
                "EMPTY_DESCRIPTION"@,
                path,
                "command has an empty description; agents rely on it to choose commands"@,
            ),
        ]
    } else {
        Seq::empty()
    }) + (if c.has_handler && c.usage is None {
        seq![
            finding(
                crate::audit::AuditSeverity::Warning,
                "MISSING_USAGE"@,
                path,
                "handler command has no usage string; a framework default is used instead"@,
            ),
        ]
    } else {
        Seq::empty()
    }) + dangling_findings(cli, c.default_next_actions, path)
}

/// The audit of `cmds` under `path`: each command's own findings followed
/// by those of its subcommands, down to the maximum depth.
pub open spec fn audit_model(cli: CliV, cmds: Seq<(Seq<char>, CommandV)>, path: Seq<Seq<char>>, depth: int) -> Seq<
    crate::audit::FindingV,
>
    decreases MAX_COMMAND_DEPTH - depth, cmds.len(),
{
    if depth >= MAX_COMMAND_DEPTH || cmds.len() == 0 {
        Seq::empty()
    } else {
        let c = cmds.last().1;
        let p = path.push(c.name);
        audit_model(cli, cmds.drop_last(), path, depth) + own_findings(cli, c, join(p, " "@))
            + audit_model(cli, c.subcommands, p, depth + 1)
    }
}

// ---------------------------------------------------------------------------
// Boolean flags along the tree
// ---------------------------------------------------------------------------

/// The boolean flags a command's usage declares.
pub open spec fn own_bool_flags(c: CommandV) -> Seq<Seq<char>> {
    match c.usage {
        Some(u) => crate::usage::bool_flag_names(u),
        None => Seq::empty(),
    }
}

/// The boolean flags declared anywhere in `cmds`, down to the maximum depth.
pub open spec fn tree_bool_flags(cmds: Seq<(Seq<char>, CommandV)>, depth: int) -> Seq<Seq<char>>
    decreases MAX_COMMAND_DEPTH - depth, cmds.len(),
{
    if depth >= MAX_COMMAND_DEPTH || cmds.len() == 0 {
        Seq::empty()
    } else {
        tree_bool_flags(cmds.drop_last(), depth) + own_bool_flags(cmds.last().1) + tree_bool_flags(
            cmds.last().1.subcommands,
            depth + 1,
        )
    }
}

/// The commands the leading tokens name, outermost first.
pub open spec fn walk_path(cmds: Seq<(Seq<char>, CommandV)>, toks: Seq<Seq<char>>) -> Seq<CommandV>
    decreases toks.len(),
{
    if toks.len() == 0 {
        Seq::empty()
    } else {
        match obj_get(cmds, toks[0]) {
            None => Seq::empty(),
            Some(c) => seq![c] + walk_path(c.subcommands, toks.drop_first()),
        }
    }
}

/// The boolean flags declared by the commands of a path.
pub open spec fn path_bool_flags(path: Seq<CommandV>) -> Seq<Seq<char>>
    decreases path.len(),
{
    if path.len() == 0 {
        Seq::empty()
    } else {
        path_bool_flags(path.drop_last()) + own_bool_flags(path.last())
    }
}

/// The reserved boolean flags, when they are on.
pub open spec fn reserved_list(cli: CliV) -> Seq<Seq<char>> {
    if cli.reserved_flags {
        crate::usage::reserved_bool_flags()
    } else {
        Seq::empty()
    }
}

/// First pass: parse with every boolean flag of the tree and walk the
/// positionals to the deepest command they name.
pub open spec fn prelim_path(cli: CliV, argv: Seq<Seq<char>>) -> Seq<CommandV> {
    match crate::invocation::parse_spec(argv, tree_bool_flags(cli.commands, 0) + reserved_list(cli)) {
        Err(_) => Seq::empty(),
        Ok(inv) => walk_path(cli.commands, inv.positionals),
    }
}

/// The flags the real parse treats as booleans: those declared along the
/// path found by the first pass, plus the reserved ones.
pub open spec fn parse_bool_flags(cli: CliV, argv: Seq<Seq<char>>) -> Seq<Seq<char>> {
    path_bool_flags(prelim_path(cli, argv)) + reserved_list(cli)
}

impl<H> AgentCli<H> {
    /// Whether a `next_action` template resolves (see [`resolves_model`]).
    pub fn next_action_resolves(&self, template: &str) -> (r: bool)
        ensures
            r == resolves_model(self@, template@),
    {
        let w = split_words(template);
        let mut start: usize = 0;
        if w.len() > 0 && crate::text::str_eq(w[0].as_str(), self.name.as_str()) {
            start = 1;
        }
        let ghost toks = views(w@).skip(start as int);
        proof {
            if start == 1 {
                assert(views(w@).drop_first() =~= toks);
            } else {
                assert(views(w@) =~= toks);
            }
        }
        if start >= w.len() {
            return true;
        }
        proof {
            assert(toks.len() > 0);
        }
        let mut cmds: &Vec<Command<H>> = &self.commands;
        let mut matched = false;
        let mut i: usize = start;
        proof {
            assert(toks.skip(0) =~= toks);
        }
        while i < w.len()
            invariant
                toks == views(w@).skip(start as int),
                start <= i <= w.len(),
                start < w.len(),
                resolves_model(self@, template@) == walk_resolves(self@.commands, toks, false),
                walk_resolves(self@.commands, toks, false) == walk_resolves(cvs(cmds@), toks.skip(i - start), matched),
            decreases w.len() - i,
        {
            proof {
                assert(toks.skip(i - start)[0] == w@[i as int]@);
                assert(toks.skip(i - start).drop_first() =~= toks.skip(i - start + 1));
            }
            if stops_walk_exec(w[i].as_str()) {
                return matched;
            }
            match find_command(cmds, w[i].as_str()) {
                None => {
                    return false;
                },
                Some(k) => {
                    cmds = &cmds[k].subcommands;
                    matched = true;
                },
            }
            i = i + 1;
        }
        proof {
            assert(toks.skip(i - start) =~= Seq::<Seq<char>>::empty());
        }
        matched
    }

    fn dangling(&self, actions: &Vec<NextAction>, path: &str, report: &mut crate::audit::AuditReport)
        ensures
            crate::audit::findings_view(final(report).findings@) == crate::audit::findings_view(
                old(report).findings@,
            ) + dangling_findings(self@, actions_view(actions@), path@),
    {
        let ghost av = actions_view(actions@);
        let ghost start = crate::audit::findings_view(report.findings@);
        let mut i: usize = 0;
        proof {
            assert(av.take(0) =~= Seq::<NextActionV>::empty());
            assert(start + Seq::<crate::audit::FindingV>::empty() =~= start);
        }
        while i < actions.len()
            invariant
                av == actions_view(actions@),
                start == crate::audit::findings_view(old(report).findings@),
                i <= actions.len(),
                crate::audit::findings_view(report.findings@) == start + dangling_findings(self@, av.take(i as int), path@),
            decreases actions.len() - i,
        {
            proof {
                assert(av.take(i + 1).drop_last() =~= av.take(i as int));
                assert(av.take(i + 1).last() == actions@[i as int]@);
            }
            let a = &actions[i];
            if !self.next_action_resolves(a.command.as_str()) {
                let mut msg = String::new();
                push_str(&mut msg, "default next_action `");
                push_str(&mut msg, a.command.as_str());
                push_str(&mut msg, "` does not resolve to a known command");
                let ghost before = crate::audit::findings_view(report.findings@);
                report.push(crate::audit::AuditSeverity::Error, "DANGLING_NEXT_ACTION", path, msg.as_str());
                proof {
                    let prev = dangling_findings(self@, av.take(i as int), path@);
                    assert(before == start + prev);
                    assert(start + prev.push(finding(
                        crate::audit::AuditSeverity::Error,
                        "DANGLING_NEXT_ACTION"@,
                        path@,
                        msg@,
                    )) =~= before.push(finding(
                        crate::audit::AuditSeverity::Error,
                        "DANGLING_NEXT_ACTION"@,
                        path@,
                        msg@,
                    )));
                }
            }
            i = i + 1;
        }
        proof {
            assert(av.take(i as int) =~= av);
        }
    }

    fn own_audit(&self, c: &Command<H>, path: &str, report: &mut crate::audit::AuditReport)
        ensures
            crate::audit::findings_view(final(report).findings@) == crate::audit::findings_view(
                old(report).findings@,
            ) + own_findings(self@, c@, path@),
    {
        let ghost start = crate::audit::findings_view(report.findings@);
        let ghost cm = c@;
        proof {
            lemma_cvs(c.subcommands@);
        }
        if c.handler.is_none() && c.subcommands.len() == 0 {
            report.push(
                crate::audit::AuditSeverity::Error,
                "DEAD_END_COMMAND",
                path,
                "command has neither a handler nor subcommands; invoking it always errors",
            );
        }
        let ghost s1 = crate::audit::findings_view(report.findings@);
        let dcs = crate::text::chars_of(c.description.as_str());
        let trimmed = crate::timestamp::trim_str(dcs.as_slice());
        if trimmed.as_str().is_empty() {
            report.push(
                crate::audit::AuditSeverity::Warning,
                "EMPTY_DESCRIPTION",
                path,
                "command has an empty description; agents rely on it to choose commands",
            );
        }
        let ghost s2 = crate::audit::findings_view(report.findings@);
        if c.handler.is_some() && c.usage.is_none() {
            report.push(
                crate::audit::AuditSeverity::Warning,
                "MISSING_USAGE",
                path,
                "handler command has no usage string; a framework default is used instead",
            );
        }
        let ghost s3 = crate::audit::findings_view(report.findings@);
        self.dangling(&c.default_next_actions, path, report);
        proof {
            let a = if !cm.has_handler && cm.subcommands.len() == 0 {
                seq![finding(crate::audit::AuditSeverity::Error, "DEAD_END_COMMAND"@, path@, "command has neither a handler nor subcommands; invoking it always errors"@)]
            } else {
                Seq::empty()
            };
            let b = if crate::timestamp::trim(cm.description).len() == 0 {
                seq![finding(crate::audit::AuditSeverity::Warning, "EMPTY_DESCRIPTION"@, path@, "command has an empty description; agents rely on it to choose commands"@)]
            } else {
                Seq::empty()
            };
            let d = if cm.has_handler && cm.usage is None {
                seq![finding(crate::audit::AuditSeverity::Warning, "MISSING_USAGE"@, path@, "handler command has no usage string; a framework default is used instead"@)]
            } else {
                Seq::empty()
            };
            assert(s1 =~= start + a);
            assert(s2 =~= s1 + b);
            assert(s3 =~= s2 + d);
            assert(start + own_findings(self@, cm, path@) =~= start + a + b + d + dangling_findings(self@, cm.default_next_actions, path@));
        }
    }

    /// Audits `cmds` under `path` (see [`audit_model`]).
    fn audit_commands(&self, cmds: &Vec<Command<H>>, path: &Vec<String>, report: &mut crate::audit::AuditReport, depth: usize)
        ensures
            crate::audit::findings_view(final(report).findings@) == crate::audit::findings_view(
                old(report).findings@,
            ) + audit_model(self@, cvs(cmds@), views(path@), depth as int),
        decreases MAX_COMMAND_DEPTH - depth,
    {
        let ghost m = cvs(cmds@);
        let ghost start = crate::audit::findings_view(report.findings@);
        proof {
            lemma_cvs(cmds@);
        }
        if depth >= MAX_COMMAND_DEPTH {
            proof {
                assert(start + Seq::<crate::audit::FindingV>::empty() =~= start);
            }
            return;
        }
        let mut i: usize = 0;
        proof {
            assert(m.take(0) =~= Seq::<(Seq<char>, CommandV)>::empty());
            assert(start + Seq::<crate::audit::FindingV>::empty() =~= start);
        }
        while i < cmds.len()
            invariant
                depth < MAX_COMMAND_DEPTH,
                m == cvs(cmds@),
                m.len() == cmds@.len(),
                forall|q: int| 0 <= q < cmds@.len() ==> #[trigger] m[q] == (cmds@[q].name@, cv(cmds@[q])),
                start == crate::audit::findings_view(old(report).findings@),
                i <= cmds.len(),
                crate::audit::findings_view(report.findings@) == start + audit_model(self@, m.take(i as int), views(path@), depth as int),
            decreases cmds.len() - i,
        {
            let c = &cmds[i];
            let mut p: Vec<String> = Vec::new();
            let mut k: usize = 0;
            while k < path.len()
                invariant
                    k <= path.len(),
                    views(p@) == views(path@).take(k as int),
                decreases path.len() - k,
            {
                let item = path[k].clone();
                proof {
                    assert(views(p@.push(item)) =~= views(p@).push(item@));
                    assert(views(path@).take(k + 1) =~= views(path@).take(k as int).push(path@[k as int]@));
                }
                p.push(item);
                k = k + 1;
            }
            let ghost before_p = p@;
            p.push(c.name.clone());
            proof {
                assert(views(p@) =~= views(before_p).push(p@.last()@));
                assert(views(path@).take(k as int) =~= views(path@));
                assert(views(p@) =~= views(path@).push(m[i as int].1.name));
            }
            let text = crate::text::join_strings(p.as_slice(), " ");
            let ghost f0 = crate::audit::findings_view(report.findings@);
            self.own_audit(c, text.as_str(), report);
            let ghost f1 = crate::audit::findings_view(report.findings@);
            self.audit_commands(&c.subcommands, &p, report, depth + 1);
            proof {
                assert(m.take(i + 1).drop_last() =~= m.take(i as int));
                assert(m.take(i + 1).last() == m[i as int]);
                let prev = audit_model(self@, m.take(i as int), views(path@), depth as int);
                let own = own_findings(self@, m[i as int].1, text@);
                let sub = audit_model(self@, m[i as int].1.subcommands, views(p@), depth + 1);
                assert(crate::audit::findings_view(report.findings@) =~= start + (prev + own + sub));
            }
            i = i + 1;
        }
        proof {
            assert(m.take(i as int) =~= m);
        }
    }

    /// Statically audits this CLI: every declared `next_action` must resolve
    /// to a real command, no command may be a dead end, and handler commands
    /// should be documented.
    pub fn audit(&self) -> (r: crate::audit::AuditReport)
        ensures
            crate::audit::findings_view(r.findings@) == audit_model(
                self@,
                self@.commands,
                Seq::empty(),
                0,
            ),
    {
        let mut report = crate::audit::AuditReport::new();
        let empty: Vec<String> = Vec::new();
        proof {
            assert(views(empty@) =~= Seq::<Seq<char>>::empty());
            assert(crate::audit::findings_view(report.findings@) =~= Seq::<crate::audit::FindingV>::empty());
        }
        self.audit_commands(&self.commands, &empty, &mut report, 0);
        proof {
            assert(Seq::<crate::audit::FindingV>::empty() + audit_model(self@, self@.commands, Seq::empty(), 0)
                =~= audit_model(self@, self@.commands, Seq::empty(), 0));
        }
        report
    }
}

// ---------------------------------------------------------------------------
// Answers
// ---------------------------------------------------------------------------

/// A success envelope of this CLI.
pub open spec fn success_model(
    cli: CliV,
    command: Seq<char>,
    result: JsonV,
    actions: Seq<NextActionV>,
    now: u64,
) -> crate::envelope::EnvelopeV {
    crate::envelope::EnvelopeV::Success {
        command,
        timestamp: now,
        schema_version: cli.schema_version,
        result,
        next_actions: actions,
        exit_code: ExitCode::SUCCESS,
    }
}

/// An error envelope of this CLI with exit code `exit` (masked).
pub open spec fn error_env_model(
    cli: CliV,
    command: Seq<char>,
    message: Seq<char>,
    code: Seq<char>,
    fix: Seq<char>,
    retryable: bool,
    exit: i32,
    actions: Seq<NextActionV>,
    now: u64,
) -> crate::envelope::EnvelopeV {
    crate::envelope::EnvelopeV::Error {
        command,
        timestamp: now,
        schema_version: cli.schema_version,
        message,
        code,
        retryable,
        fix,
        next_actions: actions,
        exit_code: crate::envelope::masked(exit as int) as i32,
    }
}

/// A framework-raised error: always a usage error ([`ExitCode::USAGE`]).
pub open spec fn usage_error_model(
    cli: CliV,
    command: Seq<char>,
    message: Seq<char>,
    code: Seq<char>,
    fix: Seq<char>,
    actions: Seq<NextActionV>,
    now: u64,
) -> crate::envelope::EnvelopeV {
    error_env_model(cli, command, message, code, fix, false, ExitCode::USAGE, actions, now)
}

/// The root answer: the command tree document and the root actions.
pub open spec fn root_env_model(cli: CliV, inv: crate::invocation::InvocationView, now: u64) -> crate::envelope::EnvelopeV {
    success_model(
        cli,
        inv.command_line,
        root_result_model(cli, inv.program),
        root_actions_model(cli),
        now,
    )
}

/// The document of one command and its subcommands.
pub open spec fn tree_result_model(program: Seq<char>, path: Seq<Seq<char>>, c: CommandV) -> JsonV {
    JsonV::Object(
        crate::json::obj_from(
            seq![
                ("name"@, JsonV::Str(c.name)),
                ("description"@, JsonV::Str(c.description)),
                ("usage"@, JsonV::Str(usage_or_default(c, program, path))),
                ("subcommands"@, JsonV::Array(docs_model(program, Seq::empty(), c.subcommands, 0))),
            ],
        ),
    )
}

pub open spec fn tree_env_model(
    cli: CliV,
    inv: crate::invocation::InvocationView,
    path: Seq<Seq<char>>,
    c: CommandV,
    now: u64,
) -> crate::envelope::EnvelopeV {
    success_model(
        cli,
        inv.command_line,
        tree_result_model(inv.program, path, c),
        subcommand_actions_model(cli, path, c),
        now,
    )
}

pub open spec fn unknown_command_model(cli: CliV, inv: crate::invocation::InvocationView, now: u64) -> crate::envelope::EnvelopeV {
    let bad = inv.positionals[0];
    usage_error_model(
        cli,
        inv.command_line,
        "unknown command: "@ + bad,
        "UNKNOWN_COMMAND"@,
        crate::suggest::unknown_fix("command"@, bad, command_names(cli.commands)),
        root_actions_model(cli),
        now,
    )
}

pub open spec fn unknown_subcommand_model(
    cli: CliV,
    inv: crate::invocation::InvocationView,
    path: Seq<Seq<char>>,
    c: CommandV,
    bad: Seq<char>,
    now: u64,
) -> crate::envelope::EnvelopeV {
    usage_error_model(
        cli,
        inv.command_line,
        "unknown subcommand: "@ + bad,
        "UNKNOWN_SUBCOMMAND"@,
        crate::suggest::unknown_fix("subcommand"@, bad, command_names(c.subcommands)),
        subcommand_actions_model(cli, path, c),
        now,
    )
}

/// `--help`: the root document, or the document of the command named,
/// refusing unknown names.
pub open spec fn help_model(cli: CliV, inv: crate::invocation::InvocationView, now: u64) -> crate::envelope::EnvelopeV {
    let pos = inv.positionals;
    if pos.len() == 0 {
        root_env_model(cli, inv, now)
    } else {
        let d = resolve_depth(cli.commands, pos);
        if d == 0 {
            unknown_command_model(cli, inv, now)
        } else {
            let c = resolve_target(cli.commands, pos)->0;
            let path = pos.take(d as int);
            let remaining = pos.skip(d as int);
            if remaining.len() > 0 && c.subcommands.len() > 0 {
                unknown_subcommand_model(cli, inv, path, c, remaining[0], now)
            } else {
                tree_env_model(cli, inv, path, c, now)
            }
        }
    }
}

/// What an argv asks for.
pub ghost enum DispatchV {
    /// Answered without running a handler.
    Done(crate::envelope::EnvelopeV),
    /// Run the handler of `command`; the request holds `path` and the
    /// `remaining` positionals.
    Run {
        invocation: crate::invocation::InvocationView,
        command: CommandV,
        path: Seq<Seq<char>>,
        remaining: Seq<Seq<char>>,
    },
}

/// The text of a parse failure's fix.
pub open spec fn parse_fix() -> Seq<char> {
    "Use valid CLI syntax. Run the root command to inspect command templates."@
}

/// What `argv` asks of the CLI (an empty argv stands for the bare program
/// name): parse it with the boolean flags of the command path it names,
/// then answer help, the root, unknown names and handler-less commands
/// directly, and hand everything else to the command's handler.
pub open spec fn dispatch_model(cli: CliV, argv: Seq<Seq<char>>, now: u64) -> DispatchV {
    let args = if argv.len() == 0 {
        seq![cli.name]
    } else {
        argv
    };
    match crate::invocation::parse_spec(args, parse_bool_flags(cli, args)) {
        Err(e) => DispatchV::Done(
            usage_error_model(
                cli,
                join(args, " "@),
                crate::invocation::parse_error_message(e),
                "PARSE_ERROR"@,
                parse_fix(),
                root_actions_model(cli),
                now,
            ),
        ),
        Ok(inv) => if inv.help_requested {
            DispatchV::Done(help_model(cli, inv, now))
        } else if inv.positionals.len() == 0 {
            DispatchV::Done(root_env_model(cli, inv, now))
        } else {
            let pos = inv.positionals;
            let d = resolve_depth(cli.commands, pos);
            if d == 0 {
                DispatchV::Done(unknown_command_model(cli, inv, now))
            } else {
                let c = resolve_target(cli.commands, pos)->0;
                let path = pos.take(d as int);
                let remaining = pos.skip(d as int);
                if !c.has_handler && c.subcommands.len() > 0 {
                    if remaining.len() == 0 {
                        DispatchV::Done(tree_env_model(cli, inv, path, c, now))
                    } else {
                        DispatchV::Done(
                            unknown_subcommand_model(cli, inv, path, c, remaining[0], now),
                        )
                    }
                } else if !c.has_handler {
                    DispatchV::Done(
                        usage_error_model(
                            cli,
                            inv.command_line,
                            "command has no handler"@,
                            "MISSING_HANDLER"@,
                            "Attach a handler for this command or route to a subcommand."@,
                            root_actions_model(cli),
                            now,
                        ),
                    )
                } else {
                    DispatchV::Run { invocation: inv, command: c, path, remaining }
                }
            }
        },
    }
}

/// What came of running a handler.
pub enum HandlerOutcome {
    Output(crate::request::CommandOutput),
    Failed(crate::request::CommandError),
    /// The handler panicked; the payload's message.
    Panicked(String),
}

pub ghost enum OutcomeV {
    Output(crate::request::CommandOutputV),
    Failed(crate::request::CommandErrorV),
    Panicked(Seq<char>),
}

impl View for HandlerOutcome {
    type V = OutcomeV;

    open spec fn view(&self) -> OutcomeV {
        match self {
            HandlerOutcome::Output(o) => OutcomeV::Output(o@),
            HandlerOutcome::Failed(e) => OutcomeV::Failed(e@),
            HandlerOutcome::Panicked(s) => OutcomeV::Panicked(s@),
        }
    }
}

/// The fix of a panicked handler.
pub open spec fn panic_fix() -> Seq<char> {
    "This is a bug in the command handler, not the invocation. Inspect the root command tree and report the panic."@
}

/// The result after the reserved `--select` and `--compact` flags.
pub open spec fn projected_result(
    cli: CliV,
    inv: crate::invocation::InvocationView,
    c: CommandV,
    o: crate::request::CommandOutputV,
) -> JsonV {
    let on = cli.reserved_flags && c.apply_projection;
    let selected = if on && inv.flags.contains_key("select"@) {
        crate::usage::apply_select_model(o.result, inv.flags["select"@])
    } else {
        o.result
    };
    if on && crate::usage::flag_on(inv.flags, "compact"@) {
        match o.compact_fields {
            Some(f) => crate::json::select_model(selected, f),
            None => crate::json::compact_model(selected),
        }
    } else {
        selected
    }
}

/// The envelope for a handler's outcome: its output with the reserved flags
/// applied (`--quiet` drops the actions), its error with its own exit code,
/// or a `HANDLER_PANIC` error.
pub open spec fn finish_model(
    cli: CliV,
    inv: crate::invocation::InvocationView,
    path: Seq<Seq<char>>,
    c: CommandV,
    outcome: OutcomeV,
    now: u64,
) -> crate::envelope::EnvelopeV {
    match outcome {
        OutcomeV::Output(o) => {
            let actions = ensure_actions_model(cli, o.next_actions, path, c);
            crate::envelope::EnvelopeV::Success {
                command: inv.command_line,
                timestamp: now,
                schema_version: cli.schema_version,
                result: projected_result(cli, inv, c, o),
                next_actions: if cli.reserved_flags && crate::usage::flag_on(inv.flags, "quiet"@) {
                    Seq::empty()
                } else {
                    actions
                },
                exit_code: crate::envelope::masked(
                    match o.exit_code {
                        Some(x) => x,
                        None => ExitCode::SUCCESS,
                    } as int,
                ) as i32,
            }
        },
        OutcomeV::Failed(e) => error_env_model(
            cli,
            inv.command_line,
            e.message,
            e.code,
            e.fix,
            e.retryable,
            match e.exit_code {
                Some(x) => x,
                None => ExitCode::ERROR,
            },
            ensure_actions_model(cli, e.next_actions, path, c),
            now,
        ),
        OutcomeV::Panicked(detail) => error_env_model(
            cli,
            inv.command_line,
            "handler panicked: "@ + detail,
            "HANDLER_PANIC"@,
            panic_fix(),
            false,
            ExitCode::ERROR,
            default_actions_model(cli, path, c),
            now,
        ),
    }
}

/// A command to run: the parsed invocation, the command, its path and the
/// positionals after it.
pub struct RunPlan<'a, H> {
    pub invocation: crate::invocation::Invocation,
    pub command: &'a Command<H>,
    pub path: Vec<String>,
    pub remaining: Vec<String>,
}

/// What an argv asks for (see [`DispatchV`]).
pub enum Dispatch<'a, H> {
    Done(Envelope),
    Run(RunPlan<'a, H>),
}

impl<'a, H> View for Dispatch<'a, H> {
    type V = DispatchV;

    open spec fn view(&self) -> DispatchV {
        match self {
            Dispatch::Done(e) => DispatchV::Done(e@),
            Dispatch::Run(p) => DispatchV::Run {
                invocation: p.invocation@,
                command: p.command@,
                path: views(p.path@),
                remaining: views(p.remaining@),
            },
        }
    }
}

/// An executed CLI result.
pub struct Execution {
    envelope: Envelope,
}

impl Execution {
    pub fn new(envelope: Envelope) -> (r: Execution)
        ensures
            r.envelope_view() == envelope@,
    {
        Execution { envelope }
    }

    pub closed spec fn envelope_view(&self) -> crate::envelope::EnvelopeV {
        self.envelope@
    }

    pub fn envelope(&self) -> (r: &Envelope)
        ensures
            r@ == self.envelope_view(),
    {
        &self.envelope
    }

    /// The process exit code, the same as the envelope's `exit_code`.
    pub fn exit_code(&self) -> (r: i32)
        ensures
            r == match self.envelope_view() {
                crate::envelope::EnvelopeV::Success { exit_code, .. } => exit_code,
                crate::envelope::EnvelopeV::Error { exit_code, .. } => exit_code,
            },
    {
        self.envelope.exit_code()
    }
}

fn copy_strings(v: &[String]) -> (r: Vec<String>)
    ensures
        views(r@) == views(v@),
{
    let mut r: Vec<String> = Vec::new();
    let mut i: usize = 0;
    while i < v.len()
        invariant
            i <= v.len(),
            r@.len() == i,
            forall|q: int| 0 <= q < i ==> #[trigger] r@[q]@ == v@[q]@,
        decreases v.len() - i,
    {
        r.push(v[i].clone());
        i = i + 1;
    }
    assert(views(r@) =~= views(v@));
    r
}

/// The path as string slices.
pub fn path_refs(v: &[String]) -> (r: Vec<&str>)
    ensures
        crate::suggest::str_views(r@) == views(v@),
{
    let mut r: Vec<&str> = Vec::new();
    let mut i: usize = 0;
    while i < v.len()
        invariant
            i <= v.len(),
            r@.len() == i,
            forall|q: int| 0 <= q < i ==> #[trigger] r@[q]@ == v@[q]@,
        decreases v.len() - i,
    {
        r.push(v[i].as_str());
        i = i + 1;
    }
    assert(crate::suggest::str_views(r@) =~= views(v@));
    r
}

/// Appends the boolean flags declared in `cmds` (see [`tree_bool_flags`]).
fn collect_tree_flags<H>(cmds: &Vec<Command<H>>, depth: usize, out: &mut Vec<String>)
    ensures
        views(final(out)@) == views(old(out)@) + tree_bool_flags(cvs(cmds@), depth as int),
    decreases MAX_COMMAND_DEPTH - depth,
{
    let ghost m = cvs(cmds@);
    let ghost start = views(out@);
    proof {
        lemma_cvs(cmds@);
    }
    if depth >= MAX_COMMAND_DEPTH {
        proof {
            assert(start + Seq::<Seq<char>>::empty() =~= start);
        }
        return;
    }
    let mut i: usize = 0;
    proof {
        assert(m.take(0) =~= Seq::<(Seq<char>, CommandV)>::empty());
        assert(start + Seq::<Seq<char>>::empty() =~= start);
    }
    while i < cmds.len()
        invariant
            depth < MAX_COMMAND_DEPTH,
            m == cvs(cmds@),
            m.len() == cmds@.len(),
            forall|q: int| 0 <= q < cmds@.len() ==> #[trigger] m[q] == (cmds@[q].name@, cv(cmds@[q])),
            start == views(old(out)@),
            i <= cmds.len(),
            views(out@) == start + tree_bool_flags(m.take(i as int), depth as int),
        decreases cmds.len() - i,
    {
        let c = &cmds[i];
        let ghost o0 = views(out@);
        if let Some(u) = &c.usage {
            let mut names = crate::usage::bool_flag_list(u.as_str());
            let ghost nv = views(names@);
            out.append(&mut names);
            proof {
                assert(views(out@) =~= o0 + nv);
            }
        } else {
            proof {
                assert(o0 + Seq::<Seq<char>>::empty() =~= o0);
            }
        }
        let ghost o1 = views(out@);
        collect_tree_flags(&c.subcommands, depth + 1, out);
        proof {
            assert(m.take(i + 1).drop_last() =~= m.take(i as int));
            assert(m.take(i + 1).last() == m[i as int]);
            let prev = tree_bool_flags(m.take(i as int), depth as int);
            let own = own_bool_flags(m[i as int].1);
            let sub = tree_bool_flags(m[i as int].1.subcommands, depth + 1);
            assert(o1 == o0 + own);
            assert(views(out@) =~= start + (prev + own + sub));
        }
        i = i + 1;
    }
    proof {
        assert(m.take(i as int) =~= m);
    }
}

impl<H> AgentCli<H> {
    /// The reserved boolean flags, when they are on.
    fn reserved_flag_list(&self) -> (r: Vec<String>)
        ensures
            views(r@) == reserved_list(self@),
    {
        let mut r: Vec<String> = Vec::new();
        if self.reserved_flags {
            let names = crate::usage::reserved_bool_names();
            let mut i: usize = 0;
            while i < names.len()
                invariant
                    crate::suggest::str_views(names@) == crate::usage::reserved_bool_flags(),
                    i <= names.len(),
                    r@.len() == i,
                    forall|q: int| 0 <= q < i ==> #[trigger] r@[q]@ == names@[q]@,
                decreases names.len() - i,
            {
                r.push(owned(names[i]));
                i = i + 1;
            }
            proof {
                assert(views(r@) =~= crate::suggest::str_views(names@));
            }
        } else {
            proof {
                assert(views(r@) =~= Seq::<Seq<char>>::empty());
            }
        }
        r
    }

    /// First pass of resolution (see [`prelim_path`]).
    fn preliminary_command_path(&self, argv: &[&str]) -> (r: Vec<&Command<H>>)
        ensures
            r@.map_values(|c: &Command<H>| c@) == prelim_path(self@, argv@.map_values(|s: &str| s@)),
    {
        let mut flags: Vec<String> = Vec::new();
        collect_tree_flags(&self.commands, 0, &mut flags);
        let mut reserved = self.reserved_flag_list();
        let ghost fv = views(flags@);
        let ghost rv = views(reserved@);
        flags.append(&mut reserved);
        proof {
            assert(views(flags@) =~= tree_bool_flags(self@.commands, 0) + reserved_list(self@));
        }
        let mut path: Vec<&Command<H>> = Vec::new();
        let inv = match crate::invocation::parse_invocation_with_bool_flags(argv, flags.as_slice()) {
            Ok(v) => v,
            Err(_) => {
                proof {
                    assert(path@.map_values(|c: &Command<H>| c@) =~= Seq::<CommandV>::empty());
                }
                return path;
            },
        };
        let pos = inv.positionals();
        let ghost toks = views(pos@);
        let mut cmds: &Vec<Command<H>> = &self.commands;
        let mut i: usize = 0;
        proof {
            assert(toks.skip(0) =~= toks);
            assert(path@.map_values(|c: &Command<H>| c@) + walk_path(cvs(cmds@), toks) =~= walk_path(self@.commands, toks));
        }
        while i < pos.len()
            invariant
                toks == views(pos@),
                i <= pos.len(),
                prelim_path(self@, argv@.map_values(|s: &str| s@)) == walk_path(self@.commands, toks),
                walk_path(self@.commands, toks) == path@.map_values(|c: &Command<H>| c@) + walk_path(cvs(cmds@), toks.skip(i as int)),
            decreases pos.len() - i,
        {
            proof {
                assert(toks.skip(i as int)[0] == pos@[i as int]@);
                assert(toks.skip(i as int).drop_first() =~= toks.skip(i + 1));
            }
            match find_command(cmds, pos[i].as_str()) {
                None => {
                    proof {
                        assert(path@.map_values(|c: &Command<H>| c@) + Seq::<CommandV>::empty() =~= path@.map_values(|c: &Command<H>| c@));
                    }
                    return path;
                },
                Some(k) => {
                    let found = &cmds[k];
                    let ghost before = path@.map_values(|c: &Command<H>| c@);
                    path.push(found);
                    proof {
                        assert(path@.map_values(|c: &Command<H>| c@) =~= before.push(found@));
                        assert(before + (seq![found@] + walk_path(found@.subcommands, toks.skip(i + 1))) =~= before.push(found@) + walk_path(found@.subcommands, toks.skip(i + 1)));
                    }
                    cmds = &found.subcommands;
                },
            }
            i = i + 1;
        }
        proof {
            assert(toks.skip(i as int) =~= Seq::<Seq<char>>::empty());
            assert(path@.map_values(|c: &Command<H>| c@) + Seq::<CommandV>::empty() =~= path@.map_values(|c: &Command<H>| c@));
        }
        path
    }

    /// The flags the real parse treats as booleans (see
    /// [`parse_bool_flags`]).
    fn parse_flag_list(&self, argv: &[&str]) -> (r: Vec<String>)
        ensures
            views(r@) == parse_bool_flags(self@, argv@.map_values(|s: &str| s@)),
    {
        let path = self.preliminary_command_path(argv);
        let ghost pv = path@.map_values(|c: &Command<H>| c@);
        let mut out: Vec<String> = Vec::new();
        let mut i: usize = 0;
        proof {
            assert(pv.take(0) =~= Seq::<CommandV>::empty());
            assert(views(out@) =~= Seq::<Seq<char>>::empty());
        }
        while i < path.len()
            invariant
                pv == path@.map_values(|c: &Command<H>| c@),
                i <= path.len(),
                views(out@) == path_bool_flags(pv.take(i as int)),
            decreases path.len() - i,
        {
            proof {
                assert(pv.take(i + 1).drop_last() =~= pv.take(i as int));
                assert(pv.take(i + 1).last() == path@[i as int]@);
            }
            let ghost o0 = views(out@);
            if let Some(u) = &path[i].usage {
                let mut names = crate::usage::bool_flag_list(u.as_str());
                let ghost nv = views(names@);
                out.append(&mut names);
                proof {
                    assert(views(out@) =~= o0 + nv);
                }
            } else {
                proof {
                    assert(o0 + Seq::<Seq<char>>::empty() =~= o0);
                }
            }
            i = i + 1;
        }
        proof {
            assert(pv.take(i as int) =~= pv);
        }
        let mut reserved = self.reserved_flag_list();
        let ghost ov = views(out@);
        let ghost rv = views(reserved@);
        out.append(&mut reserved);
        proof {
            assert(views(out@) =~= ov + rv);
        }
        out
    }

    fn success_envelope(&self, command: &str, result: Json, actions: Vec<NextAction>, now: u64) -> (r: Envelope)
        ensures
            r@ == success_model(self@, command@, result@, actions_view(actions@), now),
    {
        let e = SuccessEnvelope::new(command, result, actions, now);
        match &self.schema_version {
            Some(v) => Envelope::Success(e.schema_version(v.as_str())),
            None => Envelope::Success(e),
        }
    }

    fn build_error(
        &self,
        command: &str,
        message: &str,
        code: &str,
        fix: &str,
        retryable: bool,
        exit: i32,
        actions: Vec<NextAction>,
        now: u64,
    ) -> (r: Envelope)
        ensures
            r@ == error_env_model(self@, command@, message@, code@, fix@, retryable, exit, actions_view(actions@), now),
    {
        let e = ErrorEnvelope::new(command, message, code, fix, actions, now).retryable(retryable).exit_code(exit);
        match &self.schema_version {
            Some(v) => Envelope::Error(e.schema_version(v.as_str())),
            None => Envelope::Error(e),
        }
    }

    fn root_execution(&self, inv: &crate::invocation::Invocation, now: u64) -> (r: Envelope)
        ensures
            r@ == root_env_model(self@, inv@, now),
    {
        let result = self.root_result(inv.program());
        self.success_envelope(inv.command_line(), result, self.root_actions(), now)
    }

    fn command_tree_execution(&self, inv: &crate::invocation::Invocation, path: &[String], command: &Command<H>, now: u64) -> (r: Envelope)
        ensures
            r@ == tree_env_model(self@, inv@, views(path@), command@, now),
    {
        let refs = path_refs(path);
        let usage = command.usage_or_default(inv.program(), refs.as_slice());
        let empty: Vec<String> = Vec::new();
        proof {
            assert(views(empty@) =~= Seq::<Seq<char>>::empty());
        }
        let subs = self.command_docs_into(inv.program(), &empty, &command.subcommands, 0);
        let ghost sv = crate::json::jvs(subs@);
        let mut e: Vec<(String, Json)> = Vec::new();
        e.push((owned("name"), Json::Str(command.name.clone())));
        e.push((owned("description"), Json::Str(command.description.clone())));
        e.push((owned("usage"), Json::Str(usage)));
        e.push((owned("subcommands"), Json::Array(subs)));
        proof {
            crate::json::lemma_jes_ext(
                e@,
                seq![
                    ("name"@, JsonV::Str(command@.name)),
                    ("description"@, JsonV::Str(command@.description)),
                    ("usage"@, JsonV::Str(usage_or_default(command@, inv@.program, views(path@)))),
                    ("subcommands"@, JsonV::Array(sv)),
                ],
            );
        }
        let result = Json::from_entries(e);
        let actions = self.subcommand_actions(refs.as_slice(), command);
        self.success_envelope(inv.command_line(), result, actions, now)
    }

    fn unknown_command(&self, inv: &crate::invocation::Invocation, now: u64) -> (r: Envelope)
        requires
            inv@.positionals.len() > 0,
        ensures
            r@ == unknown_command_model(self@, inv@, now),
    {
        let bad = inv.positionals()[0].as_str();
        let mut message = owned("unknown command: ");
        push_str(&mut message, bad);
        let valid = self.command_names();
        let fix = crate::suggest::unknown_command_fix("command", bad, valid.as_slice());
        self.build_error(
            inv.command_line(),
            message.as_str(),
            "UNKNOWN_COMMAND",
            fix.as_str(),
            false,
            ExitCode::USAGE,
            self.root_actions(),
            now,
        )
    }

    fn unknown_subcommand(&self, inv: &crate::invocation::Invocation, path: &[String], command: &Command<H>, bad: &str, now: u64) -> (r: Envelope)
        ensures
            r@ == unknown_subcommand_model(self@, inv@, views(path@), command@, bad@, now),
    {
        let mut message = owned("unknown subcommand: ");
        push_str(&mut message, bad);
        let valid = names_of(&command.subcommands);
        let fix = crate::suggest::unknown_command_fix("subcommand", bad, valid.as_slice());
        let refs = path_refs(path);
        let actions = self.subcommand_actions(refs.as_slice(), command);
        self.build_error(
            inv.command_line(),
            message.as_str(),
            "UNKNOWN_SUBCOMMAND",
            fix.as_str(),
            false,
            ExitCode::USAGE,
            actions,
            now,
        )
    }

    /// `--help` (see [`help_model`]).
    fn help_execution(&self, inv: &crate::invocation::Invocation, now: u64) -> (r: Envelope)
        ensures
            r@ == help_model(self@, inv@, now),
    {
        let pos = inv.positionals();
        if pos.len() == 0 {
            return self.root_execution(inv, now);
        }
        let (found, d) = self.resolve_command(pos);
        proof {
            lemma_resolve(self@.commands, views(pos@));
        }
        if d == 0 {
            return self.unknown_command(inv, now);
        }
        let command = match found {
            Some(c) => c,
            None => {
                return self.unknown_command(inv, now);
            },
        };
        let path = vstd::slice::slice_subrange(pos, 0, d);
        let remaining = vstd::slice::slice_subrange(pos, d, pos.len());
        proof {
            assert(views(path@) =~= views(pos@).take(d as int));
            assert(views(remaining@) =~= views(pos@).skip(d as int));
            lemma_cvs(command.subcommands@);
        }
        if remaining.len() > 0 && command.subcommands.len() > 0 {
            return self.unknown_subcommand(inv, path, command, remaining[0].as_str(), now);
        }
        self.command_tree_execution(inv, path, command, now)
    }

    /// Decides what `argv` asks for (see [`dispatch_model`]). `now` is the
    /// envelope timestamp in epoch seconds.
    pub fn dispatch(&self, argv: &[&str], now: u64) -> (r: Dispatch<'_, H>)
        ensures
            r@ == dispatch_model(self@, argv@.map_values(|s: &str| s@), now),
            r matches Dispatch::Run(plan) ==> self.command_at_path(views(plan.path@)) == Some(
                *plan.command,
            ),
    {
        let ghost av = argv@.map_values(|s: &str| s@);
        let mut own: Vec<&str> = Vec::new();
        if argv.len() == 0 {
            own.push(self.name.as_str());
        } else {
            let mut i: usize = 0;
            while i < argv.len()
                invariant
                    i <= argv.len(),
                    own@ == argv@.take(i as int),
                decreases argv.len() - i,
            {
                own.push(argv[i]);
                i = i + 1;
            }
            proof {
                assert(argv@.take(i as int) =~= argv@);
            }
        }
        let ghost args = own@.map_values(|s: &str| s@);
        proof {
            if av.len() == 0 {
                assert(args =~= seq![self@.name]);
            } else {
                assert(args =~= av);
            }
        }
        let flags = self.parse_flag_list(own.as_slice());
        let inv = match crate::invocation::parse_invocation_with_bool_flags(own.as_slice(), flags.as_slice()) {
            Ok(v) => v,
            Err(e) => {
                let joined = crate::suggest::join_strs(own.as_slice(), " ");
                proof {
                    assert(crate::suggest::str_views(own@) =~= args);
                }
                let message = e.message();
                return Dispatch::Done(
                    self.build_error(
                        joined.as_str(),
                        message.as_str(),
                        "PARSE_ERROR",
                        "Use valid CLI syntax. Run the root command to inspect command templates.",
                        false,
                        ExitCode::USAGE,
                        self.root_actions(),
                        now,
                    ),
                );
            },
        };
        if inv.help_requested() {
            return Dispatch::Done(self.help_execution(&inv, now));
        }
        if inv.positionals().len() == 0 {
            return Dispatch::Done(self.root_execution(&inv, now));
        }
        let pos = inv.positionals();
        let (found, d) = self.resolve_command(pos);
        proof {
            lemma_resolve(self@.commands, views(pos@));
        }
        if d == 0 {
            return Dispatch::Done(self.unknown_command(&inv, now));
        }
        let command = match found {
            Some(c) => c,
            None => {
                return Dispatch::Done(self.unknown_command(&inv, now));
            },
        };
        let head = vstd::slice::slice_subrange(pos, 0, d);
        let tail = vstd::slice::slice_subrange(pos, d, pos.len());
        let path = copy_strings(head);
        let remaining = copy_strings(tail);
        proof {
            assert(views(head@) =~= views(pos@).take(d as int));
            assert(views(tail@) =~= views(pos@).skip(d as int));
            lemma_cvs(command.subcommands@);
        }
        if command.handler.is_none() && command.subcommands.len() > 0 {
            if remaining.len() == 0 {
                return Dispatch::Done(self.command_tree_execution(&inv, path.as_slice(), command, now));
            }
            return Dispatch::Done(
                self.unknown_subcommand(&inv, path.as_slice(), command, remaining[0].as_str(), now),
            );
        }
        if command.handler.is_none() {
            return Dispatch::Done(
                self.build_error(
                    inv.command_line(),
                    "command has no handler",
                    "MISSING_HANDLER",
                    "Attach a handler for this command or route to a subcommand.",
                    false,
                    ExitCode::USAGE,
                    self.root_actions(),
                    now,
                ),
            );
        }
        Dispatch::Run(RunPlan { invocation: inv, command, path, remaining })
    }
}

impl<H> AgentCli<H> {
    /// The envelope for the outcome of running `plan`'s handler (see
    /// [`finish_model`]). `now` is the envelope timestamp in epoch seconds.
    pub fn finish(&self, plan: RunPlan<'_, H>, outcome: HandlerOutcome, now: u64) -> (r: Envelope)
        ensures
            r@ == finish_model(
                self@,
                plan.invocation@,
                views(plan.path@),
                plan.command@,
                outcome@,
                now,
            ),
    {
        let RunPlan { invocation, command, path, remaining: _ } = plan;
        let refs = path_refs(path.as_slice());
        match outcome {
            HandlerOutcome::Output(o) => {
                let ghost ov = o@;
                let (result0, handler_actions, output_exit, compact_fields) = o.into_parts();
                let mut actions = self.ensure_next_actions(handler_actions, refs.as_slice(), command);
                let mut result = result0;
                let on = self.reserved_flags && command.apply_reserved_projection;
                if on {
                    if let Some(raw) = invocation.flag("select") {
                        result = crate::usage::apply_select_flag(result, raw);
                    }
                }
                let ghost selected = result@;
                proof {
                    assert(selected == if on && invocation@.flags.contains_key("select"@) {
                        crate::usage::apply_select_model(ov.result, invocation@.flags["select"@])
                    } else {
                        ov.result
                    });
                }
                if on && crate::usage::reserved_flag_on(&invocation, "compact") {
                    result = match &compact_fields {
                        Some(fields) => {
                            let rr = path_refs(fields.as_slice());
                            crate::json::select(&result, rr.as_slice())
                        },
                        None => crate::json::compact(&result),
                    };
                }
                if self.reserved_flags && crate::usage::reserved_flag_on(&invocation, "quiet") {
                    actions = Vec::new();
                    proof {
                        assert(actions_view(actions@) =~= Seq::<NextActionV>::empty());
                    }
                }
                let code = match output_exit {
                    Some(c) => c,
                    None => ExitCode::SUCCESS,
                };
                let e = SuccessEnvelope::new(invocation.command_line(), result, actions, now);
                let e = match &self.schema_version {
                    Some(v) => e.schema_version(v.as_str()),
                    None => e,
                };
                Envelope::Success(e.exit_code(code))
            },
            HandlerOutcome::Failed(err) => {
                let exit = match err.exit_code {
                    Some(c) => c,
                    None => ExitCode::ERROR,
                };
                let crate::request::CommandError { message, code, fix, retryable, next_actions, exit_code: _ } = err;
                let actions = self.ensure_next_actions(next_actions, refs.as_slice(), command);
                self.build_error(
                    invocation.command_line(),
                    message.as_str(),
                    code.as_str(),
                    fix.as_str(),
                    retryable,
                    exit,
                    actions,
                    now,
                )
            },
            HandlerOutcome::Panicked(detail) => {
                let mut message = owned("handler panicked: ");
                push_str(&mut message, detail.as_str());
                let actions = self.default_command_actions(refs.as_slice(), command);
                self.build_error(
                    invocation.command_line(),
                    message.as_str(),
                    "HANDLER_PANIC",
                    "This is a bug in the command handler, not the invocation. Inspect the root command tree and report the panic.",
                    false,
                    ExitCode::ERROR,
                    actions,
                    now,
                )
            },
        }
    }
}

// ---------------------------------------------------------------------------
// Laws
// ---------------------------------------------------------------------------

/// Every error the framework raises itself (bad syntax, unknown command or
/// subcommand, missing handler) carries the usage exit code.
pub proof fn law_framework_errors_are_usage_errors(cli: CliV, argv: Seq<Seq<char>>, now: u64)
    ensures
        dispatch_model(cli, argv, now) matches DispatchV::Done(crate::envelope::EnvelopeV::Error { exit_code, .. })
            ==> exit_code == ExitCode::USAGE,
{
}

/// Every answer to a run carries an exit code within 0–255, the range of a
/// process status, and a handler's error keeps its own code when it has one
/// in that range.
pub proof fn law_finish_exit_code_in_range(
    cli: CliV,
    inv: crate::invocation::InvocationView,
    path: Seq<Seq<char>>,
    c: CommandV,
    outcome: OutcomeV,
    now: u64,
)
    ensures
        match finish_model(cli, inv, path, c, outcome, now) {
            crate::envelope::EnvelopeV::Success { exit_code, .. } => 0 <= exit_code <= 255,
            crate::envelope::EnvelopeV::Error { exit_code, .. } => 0 <= exit_code <= 255,
        },
        outcome matches OutcomeV::Failed(e) ==> (e.exit_code is None ==> (finish_model(cli, inv, path, c, outcome, now)
            matches crate::envelope::EnvelopeV::Error { exit_code, .. } && exit_code == ExitCode::ERROR)),
        outcome matches OutcomeV::Panicked(_) ==> (finish_model(cli, inv, path, c, outcome, now)
            matches crate::envelope::EnvelopeV::Error { exit_code, .. } && exit_code == ExitCode::ERROR),
{
}

/// With the reserved flags on, `--quiet` (unless given `false`, `0`, `no` or
/// `off`) leaves a successful answer without `next_actions`.
pub proof fn law_quiet_drops_actions(
    cli: CliV,
    inv: crate::invocation::InvocationView,
    path: Seq<Seq<char>>,
    c: CommandV,
    o: crate::request::CommandOutputV,
    now: u64,
)
    requires
        cli.reserved_flags,
        crate::usage::flag_on(inv.flags, "quiet"@),
    ensures
        (finish_model(cli, inv, path, c, OutcomeV::Output(o), now) matches crate::envelope::EnvelopeV::Success { next_actions, .. }
            && next_actions.len() == 0),
{
}

/// A command that opts out of the reserved projection (the built-in
/// `doctor`) answers with its result untouched by `--select`/`--compact`.
pub proof fn law_unprojected_result_is_kept(
    cli: CliV,
    inv: crate::invocation::InvocationView,
    c: CommandV,
    o: crate::request::CommandOutputV,
)
    requires
        !c.apply_projection,
    ensures
        projected_result(cli, inv, c, o) == o.result,
{
}

/// The core keys of the root document cannot be shadowed by extra root
/// fields: `description`, `commands`, a set `version` and, with the reserved
/// flags on, `agent_flags` always hold the framework's values.
pub proof fn law_root_core_keys_win(cli: CliV, program: Seq<char>)
    ensures
        ({
            let m = root_result_model(cli, program)->Object_0;
            &&& obj_get(m, "description"@) == Some(JsonV::Str(cli.description))
            &&& obj_get(m, "commands"@) == Some(
                JsonV::Array(docs_model(program, Seq::empty(), cli.commands, 0)),
            )
            &&& (cli.version matches Some(v) ==> obj_get(m, "version"@) == Some(JsonV::Str(v)))
            &&& (cli.reserved_flags ==> obj_get(m, "agent_flags"@) == Some(
                JsonV::Array(agent_flags_json()),
            ))
            &&& (!cli.reserved_flags ==> obj_get(m, "agent_flags"@) == crate::json::last_value(
                cli.root_extra,
                "agent_flags"@,
            ))
        }),
{
    let core = seq![("description"@, JsonV::Str(cli.description))] + match cli.version {
        Some(v) => seq![("version"@, JsonV::Str(v))],
        None => Seq::empty(),
    } + seq![("commands"@, JsonV::Array(docs_model(program, Seq::empty(), cli.commands, 0)))]
        + if cli.reserved_flags {
        seq![("agent_flags"@, JsonV::Array(agent_flags_json()))]
    } else {
        Seq::empty()
    };
    let all = cli.root_extra + core;
    crate::json::law_obj_from_last_wins(all, "description"@);
    crate::json::law_obj_from_last_wins(all, "commands"@);
    crate::json::law_obj_from_last_wins(all, "version"@);
    crate::json::law_obj_from_last_wins(all, "agent_flags"@);
    lemma_last_value_concat(cli.root_extra, core, "description"@);
    lemma_last_value_concat(cli.root_extra, core, "commands"@);
    lemma_last_value_concat(cli.root_extra, core, "version"@);
    lemma_last_value_concat(cli.root_extra, core, "agent_flags"@);
    reveal_with_fuel(crate::json::last_value, 5);
    assert("description"@ != "commands"@) by {
        reveal_strlit("description");
        reveal_strlit("commands");
        assert("description"@.len() != "commands"@.len());
    }
    assert("description"@ != "version"@) by {
        reveal_strlit("description");
        reveal_strlit("version");
        assert("description"@.len() != "version"@.len());
    }
    assert("description"@ != "agent_flags"@) by {
        reveal_strlit("description");
        reveal_strlit("agent_flags");
        assert("description"@[0] != "agent_flags"@[0]);
    }
    assert("commands"@ != "version"@) by {
        reveal_strlit("commands");
        reveal_strlit("version");
        assert("commands"@.len() != "version"@.len());
    }
    assert("commands"@ != "agent_flags"@) by {
        reveal_strlit("commands");
        reveal_strlit("agent_flags");
        assert("commands"@.len() != "agent_flags"@.len());
    }
    assert("version"@ != "agent_flags"@) by {
        reveal_strlit("version");
        reveal_strlit("agent_flags");
        assert("version"@.len() != "agent_flags"@.len());
    }
}

/// With reserved flags on, every reserved boolean flag is parsed as a
/// boolean on every command line: by [`law_bool_flag_never_takes_value`], it
/// never takes the token after it as its value.
pub proof fn law_reserved_bools_parse_as_bools(cli: CliV, argv: Seq<Seq<char>>, f: Seq<char>)
    requires
        cli.reserved_flags,
        crate::usage::reserved_bool_flags().contains(f),
    ensures
        parse_bool_flags(cli, argv).contains(f),
{
    let p = path_bool_flags(prelim_path(cli, argv));
    let r = reserved_list(cli);
    let k = choose|k: int| 0 <= k < r.len() && r[k] == f;
    assert((p + r)[p.len() + k] == f);
}

} // verus!
