//! Renders a CLI definition as an agent skill (`SKILL.md`): the same
//! self-documenting tree the root command returns, as markdown with
//! frontmatter.
use vstd::prelude::*;
use crate::cli::{AgentCli, Command, CommandV, MAX_COMMAND_DEPTH, cvs, lemma_cvs, usage_or_default, words};
use crate::text::{chars_of, join, owned, push_char, push_str, views};

verus! {

broadcast use vstd::seq_lib::group_seq_properties;

/// Every run of whitespace folded into one space, and none at the ends.
pub open spec fn collapsed(s: Seq<char>) -> Seq<char> {
    join(words(s), " "@)
}

/// Folds every run of whitespace into one space, so a description stays on
/// one line.
pub fn collapse(value: &str) -> (r: String)
    ensures
        r@ == collapsed(value@),
{
    let w = crate::cli::split_words(value);
    crate::text::join_strings(w.as_slice(), " ")
}

/// `s` holds the two characters `a`, `b` next to each other.
pub open spec fn has_pair(s: Seq<char>, a: char, b: char) -> bool {
    exists|i: int| 0 <= i < s.len() - 1 && #[trigger] s[i] == a && s[i + 1] == b
}

/// Characters a plain YAML scalar may not start with.
pub open spec fn yaml_indicator(c: char) -> bool {
    c == '-' || c == '?' || c == ':' || c == ',' || c == '[' || c == ']' || c == '{' || c == '}'
        || c == '#' || c == '&' || c == '*' || c == '!' || c == '|' || c == '>' || c == '%' || c
        == '@' || c == '`'
}

/// Whether `s` must be quoted to stay one plain YAML string.
pub open spec fn needs_quotes(s: Seq<char>) -> bool {
    s.len() == 0 || has_pair(s, ':', ' ') || has_pair(s, ' ', '#') || s.last() == ':' || s.contains(
        '"',
    ) || s.contains('\'') || yaml_indicator(s[0])
}

/// `s` with `\` and `"` escaped by a backslash.
pub open spec fn escaped(s: Seq<char>) -> Seq<char>
    decreases s.len(),
{
    if s.len() == 0 {
        Seq::empty()
    } else {
        let c = s.last();
        escaped(s.drop_last()) + if c == '\\' || c == '"' {
            seq!['\\', c]
        } else {
            seq![c]
        }
    }
}

/// `s` as a YAML scalar: as is when a plain scalar reads back the same,
/// else double-quoted.
pub open spec fn yaml_text(s: Seq<char>) -> Seq<char> {
    if needs_quotes(s) {
        seq!['"'] + escaped(s) + seq!['"']
    } else {
        s
    }
}

/// A YAML scalar is written in double quotes whenever a plain one would be
/// read differently: when the text is empty, holds `: ` or ` #` (a comment
/// would start), ends in `:`, holds a quote character, or starts with a
/// character YAML reserves. Text with none of these is written as it is.
pub proof fn law_yaml_quotes_what_plain_would_misread(s: Seq<char>)
    ensures
        ((s.len() == 0 || (exists|i: int| 0 <= i < s.len() - 1 && #[trigger] s[i] == ' ' && s[i + 1] == '#')
            || (exists|i: int| 0 <= i < s.len() - 1 && #[trigger] s[i] == ':' && s[i + 1] == ' ') || s.last()
            == ':' || s.contains('"') || s.contains('\'') || s[0] == '-' || s[0] == '?' || s[0]
            == ':' || s[0] == ',' || s[0] == '[' || s[0] == ']' || s[0] == '{' || s[0] == '}'
            || s[0] == '#' || s[0] == '&' || s[0] == '*' || s[0] == '!' || s[0] == '|' || s[0]
            == '>' || s[0] == '%' || s[0] == '@' || s[0] == '`') ==> (yaml_text(s).len() >= 2
            && yaml_text(s)[0] == '"' && yaml_text(s).last() == '"' && yaml_text(s) == seq!['"']
            + escaped(s) + seq!['"'])),
        ((s.len() > 0 && !(exists|i: int| 0 <= i < s.len() - 1 && #[trigger] s[i] == ' ' && s[i + 1] == '#')
            && !(exists|i: int| 0 <= i < s.len() - 1 && #[trigger] s[i] == ':' && s[i + 1] == ' ') && s.last()
            != ':' && !s.contains('"') && !s.contains('\'') && !yaml_indicator(s[0])) ==> yaml_text(
            s,
        ) == s),
{
    if exists|i: int| 0 <= i < s.len() - 1 && #[trigger] s[i] == ' ' && s[i + 1] == '#' {
        let i = choose|i: int| 0 <= i < s.len() - 1 && #[trigger] s[i] == ' ' && s[i + 1] == '#';
        assert(has_pair(s, ' ', '#'));
    }
    if exists|i: int| 0 <= i < s.len() - 1 && #[trigger] s[i] == ':' && s[i + 1] == ' ' {
        let i = choose|i: int| 0 <= i < s.len() - 1 && #[trigger] s[i] == ':' && s[i + 1] == ' ';
        assert(has_pair(s, ':', ' '));
    }
    if has_pair(s, ' ', '#') {
        let i = choose|i: int| 0 <= i < s.len() - 1 && #[trigger] s[i] == ' ' && s[i + 1] == '#';
        assert(s[i] == ' ' && s[i + 1] == '#');
    }
    if has_pair(s, ':', ' ') {
        let i = choose|i: int| 0 <= i < s.len() - 1 && #[trigger] s[i] == ':' && s[i + 1] == ' ';
        assert(s[i] == ':' && s[i + 1] == ' ');
    }
    assert((seq!['"'] + escaped(s) + seq!['"'])[0] == '"');
}

/// Escaping inside quotes goes character by character: the escape of a
/// text is the escapes of its parts put together, a backslash becomes `\\`,
/// a double quote becomes `\"`, and every other character stays as it is.
pub proof fn law_yaml_escape_is_per_character(a: Seq<char>, b: Seq<char>, c: char)
    ensures
        escaped(a + b) == escaped(a) + escaped(b),
        escaped(seq!['\\']) == seq!['\\', '\\'],
        escaped(seq!['"']) == seq!['\\', '"'],
        c != '\\' && c != '"' ==> escaped(seq![c]) == seq![c],
    decreases b.len(),
{
    assert(seq!['\\'].drop_last() =~= Seq::<char>::empty());
    assert(seq!['"'].drop_last() =~= Seq::<char>::empty());
    assert(seq![c].drop_last() =~= Seq::<char>::empty());
    if b.len() == 0 {
        assert(a + b =~= a);
    } else {
        law_yaml_escape_is_per_character(a, b.drop_last(), c);
        assert((a + b).drop_last() =~= a + b.drop_last());
        assert((a + b).last() == b.last());
    }
}

fn has_pair_exec(cs: &[char], a: char, b: char) -> (r: bool)
    ensures
        r == has_pair(cs@, a, b),
{
    let mut i: usize = 0;
    while i < cs.len() && i + 1 < cs.len()
        invariant
            i <= cs.len(),
            forall|k: int| 0 <= k < i && k < cs@.len() - 1 ==> !(#[trigger] cs@[k] == a && cs@[k + 1] == b),
        decreases cs.len() - i,
    {
        if cs[i] == a && cs[i + 1] == b {
            return true;
        }
        i = i + 1;
    }
    false
}

fn contains_char(cs: &[char], c: char) -> (r: bool)
    ensures
        r == cs@.contains(c),
{
    let mut i: usize = 0;
    while i < cs.len()
        invariant
            i <= cs.len(),
            forall|k: int| 0 <= k < i ==> cs@[k] != c,
        decreases cs.len() - i,
    {
        if cs[i] == c {
            return true;
        }
        i = i + 1;
    }
    false
}

/// Emits `value` as a YAML scalar, quoting only when a plain one would parse
/// as something else (see [`yaml_text`]).
pub fn yaml_scalar(value: &str) -> (r: String)
    ensures
        r@ == yaml_text(value@),
{
    let cs = chars_of(value);
    let n = cs.len();
    let quote = n == 0 || has_pair_exec(cs.as_slice(), ':', ' ') || has_pair_exec(
        cs.as_slice(),
        ' ',
        '#',
    ) || cs[n - 1] == ':' || contains_char(cs.as_slice(), '"') || contains_char(
        cs.as_slice(),
        '\'',
    ) || {
        let c = cs[0];
        c == '-' || c == '?' || c == ':' || c == ',' || c == '[' || c == ']' || c == '{' || c
            == '}' || c == '#' || c == '&' || c == '*' || c == '!' || c == '|' || c == '>' || c
            == '%' || c == '@' || c == '`'
    };
    if !quote {
        return owned(value);
    }
    let mut r = String::new();
    push_char(&mut r, '"');
    let mut i: usize = 0;
    while i < n
        invariant
            n == cs@.len(),
            cs@ == value@,
            i <= n,
            r@ == seq!['"'] + escaped(value@.take(i as int)),
        decreases n - i,
    {
        proof {
            assert(value@.take(i + 1).drop_last() =~= value@.take(i as int));
        }
        let c = cs[i];
        if c == '\\' || c == '"' {
            push_char(&mut r, '\\');
        }
        push_char(&mut r, c);
        proof {
            if c == '\\' || c == '"' {
                assert(r@ =~= seq!['"'] + escaped(value@.take(i as int)) + seq!['\\', c]);
            } else {
                assert(r@ =~= seq!['"'] + escaped(value@.take(i as int)) + seq![c]);
            }
        }
        i = i + 1;
    }
    proof {
        assert(value@.take(i as int) =~= value@);
    }
    push_char(&mut r, '"');
    r
}

/// Ends with sentence punctuation.
pub open spec fn ends_sentence(s: Seq<char>) -> bool {
    s.len() > 0 && (s.last() == '.' || s.last() == '!' || s.last() == '?')
}

/// The one-line frontmatter description: what the CLI does, then the
/// sentence an agent harness matches a request against, then the version.
pub open spec fn description_text(name: Seq<char>, description: Seq<char>, version: Option<Seq<char>>) -> Seq<char> {
    let summary = collapsed(description);
    let lead = if summary.len() == 0 {
        Seq::empty()
    } else if ends_sentence(summary) {
        summary + " "@
    } else {
        summary + "."@ + " "@
    };
    lead + "Use when running the `"@ + name + "` CLI or when the user asks to "@ + name
        + " something."@ + match version {
        Some(v) => " Version "@ + v + "."@,
        None => Seq::empty(),
    }
}

/// `depth` levels of list indentation.
pub open spec fn indent(depth: nat) -> Seq<char>
    decreases depth,
{
    if depth == 0 {
        Seq::empty()
    } else {
        indent((depth - 1) as nat) + "  "@
    }
}

/// The command tree as a markdown list, one usage template per line,
/// subcommands indented under their parent, down to the maximum depth.
pub open spec fn commands_md(program: Seq<char>, path: Seq<Seq<char>>, cmds: Seq<(Seq<char>, CommandV)>, depth: int) -> Seq<char>
    decreases MAX_COMMAND_DEPTH - depth, cmds.len(),
{
    if depth >= MAX_COMMAND_DEPTH || depth < 0 || cmds.len() == 0 {
        Seq::empty()
    } else {
        let c = cmds.last().1;
        let p = path.push(c.name);
        commands_md(program, path, cmds.drop_last(), depth) + indent(depth as nat) + "- `"@
            + usage_or_default(c, program, p) + "` — "@ + collapsed(c.description) + "\n"@
            + commands_md(program, p, c.subcommands, depth + 1)
    }
}

/// A list item `` - `key` — text ``.
pub open spec fn item(key: Seq<char>, text: Seq<char>) -> Seq<char> {
    "- `"@ + key + "` — "@ + text + "\n"@
}

pub open spec fn items(list: Seq<(Seq<char>, Seq<char>)>) -> Seq<char>
    decreases list.len(),
{
    if list.len() == 0 {
        Seq::empty()
    } else {
        items(list.drop_last()) + item(list.last().0, list.last().1)
    }
}

/// The exit codes a command may end with and what each means.
pub open spec fn exit_code_docs() -> Seq<(Seq<char>, Seq<char>)> {
    seq![
        ("0"@, "Command succeeded."@),
        ("1"@, "Generic, unclassified failure (the default for handler errors)."@),
        ("2"@, "Bad invocation: unknown command, bad flag, missing argument."@),
        ("3"@, "A requested resource does not exist."@),
        ("4"@, "Authentication or authorization failure."@),
        ("5"@, "An upstream/API call failed."@),
        ("7"@, "The caller is being rate limited and should back off."@),
    ]
}

/// The error codes the framework itself raises and what each means.
pub open spec fn error_code_docs() -> Seq<(Seq<char>, Seq<char>)> {
    seq![
        ("PARSE_ERROR"@, "The command line is not valid CLI syntax."@),
        ("UNKNOWN_COMMAND"@, "No command has that name; `fix` lists the valid ones."@),
        ("UNKNOWN_SUBCOMMAND"@, "No subcommand has that name; `fix` lists the valid ones."@),
        ("MISSING_HANDLER"@, "The command has no handler; route to one of its subcommands."@),
        ("HANDLER_PANIC"@, "The command handler panicked: a bug in the handler, not the invocation."@),
        ("MISSING_ARG"@, "A required positional argument is missing."@),
        ("INVALID_ARG"@, "A positional argument is not a valid value."@),
        ("INVALID_FLAG"@, "A flag value is not valid."@),
    ]
}

fn exit_code_docs_exec() -> (r: Vec<(&'static str, &'static str)>)
    ensures
        r@.map_values(|p: (&'static str, &'static str)| (p.0@, p.1@)) == exit_code_docs(),
{
    let r = vec![
        ("0", "Command succeeded."),
        ("1", "Generic, unclassified failure (the default for handler errors)."),
        ("2", "Bad invocation: unknown command, bad flag, missing argument."),
        ("3", "A requested resource does not exist."),
        ("4", "Authentication or authorization failure."),
        ("5", "An upstream/API call failed."),
        ("7", "The caller is being rate limited and should back off."),
    ];
    assert(r@.map_values(|p: (&'static str, &'static str)| (p.0@, p.1@)) =~= exit_code_docs());
    r
}

fn error_code_docs_exec() -> (r: Vec<(&'static str, &'static str)>)
    ensures
        r@.map_values(|p: (&'static str, &'static str)| (p.0@, p.1@)) == error_code_docs(),
{
    let r = vec![
        ("PARSE_ERROR", "The command line is not valid CLI syntax."),
        ("UNKNOWN_COMMAND", "No command has that name; `fix` lists the valid ones."),
        ("UNKNOWN_SUBCOMMAND", "No subcommand has that name; `fix` lists the valid ones."),
        ("MISSING_HANDLER", "The command has no handler; route to one of its subcommands."),
        ("HANDLER_PANIC", "The command handler panicked: a bug in the handler, not the invocation."),
        ("MISSING_ARG", "A required positional argument is missing."),
        ("INVALID_ARG", "A positional argument is not a valid value."),
        ("INVALID_FLAG", "A flag value is not valid."),
    ];
    assert(r@.map_values(|p: (&'static str, &'static str)| (p.0@, p.1@)) =~= error_code_docs());
    r
}

/// Appends `items(list)`.
fn push_items(out: &mut String, list: &Vec<(&'static str, &'static str)>)
    ensures
        final(out)@ == old(out)@ + items(list@.map_values(|p: (&'static str, &'static str)| (p.0@, p.1@))),
{
    let ghost lv = list@.map_values(|p: (&'static str, &'static str)| (p.0@, p.1@));
    let ghost start = out@;
    let mut i: usize = 0;
    proof {
        assert(lv.take(0) =~= Seq::<(Seq<char>, Seq<char>)>::empty());
        assert(start + items(lv.take(0)) =~= start);
    }
    while i < list.len()
        invariant
            lv == list@.map_values(|p: (&'static str, &'static str)| (p.0@, p.1@)),
            start == old(out)@,
            i <= list.len(),
            out@ == start + items(lv.take(i as int)),
        decreases list.len() - i,
    {
        proof {
            assert(lv.take(i + 1).drop_last() =~= lv.take(i as int));
            assert(lv.take(i + 1).last() == (list@[i as int].0@, list@[i as int].1@));
        }
        push_str(out, "- `");
        push_str(out, list[i].0);
        push_str(out, "` — ");
        push_str(out, list[i].1);
        push_str(out, "\n");
        proof {
            assert(out@ =~= start + (items(lv.take(i as int)) + item(list@[i as int].0@, list@[i as int].1@)));
        }
        i = i + 1;
    }
    proof {
        assert(lv.take(i as int) =~= lv);
    }
}

/// The contract section, for the CLI `name`.
pub open spec fn contract_md(name: Seq<char>) -> Seq<char> {
    "## Contract\n\n"@ + "- Every `"@ + name
        + "` invocation prints one JSON envelope on stdout: `ok`, `command`, `timestamp` (RFC 3339 UTC), `exit_code`, then `result` on success or `error` plus `fix` on failure, then `next_actions`.\n"@
        + "- Follow `next_actions`. When an action carries `params`, its `command` is a template: fill every placeholder before you run it. With no `params`, run the command as printed.\n"@
        + "- On failure, `error.code` names the failure class, `fix` says what to do about it, and `error.retryable` says whether the same call can work later.\n"@
        + "- `exit_code` is both the process status and a field. Branch on it.\n"@ + "- Run `"@ + name
        + "` alone for the full command tree. Run `"@ + name + " help <command>` for one command.\n\n"@
}

/// The whole `SKILL.md` of a CLI.
pub open spec fn skill_md(cli: crate::cli::CliV) -> Seq<char> {
    let summary = collapsed(cli.description);
    let commands = commands_md(cli.name, Seq::empty(), cli.commands, 0);
    "---\n"@ + "name: "@ + yaml_text(cli.name) + "\n"@ + "description: "@ + yaml_text(
        description_text(cli.name, cli.description, cli.version),
    ) + "\n"@ + "---\n\n"@ + "# "@ + cli.name + "\n\n"@ + (if summary.len() > 0 {
        summary + "\n\n"@
    } else {
        Seq::empty()
    }) + contract_md(cli.name) + (if cli.commands.len() > 0 {
        "## Commands\n\n"@ + commands + "\n"@
    } else {
        Seq::empty()
    }) + (if cli.reserved_flags {
        "## Agent flags\n\nAccepted on every command:\n\n"@ + items(
            crate::usage::reserved_flag_docs_model(),
        ) + "\n"@
    } else {
        Seq::empty()
    }) + "## Exit codes\n\n"@ + items(exit_code_docs()) + "\n"@
        + "## Error codes\n\nRead from `error.code`:\n\n"@ + items(error_code_docs())
}

impl<H> AgentCli<H> {
    /// The frontmatter description line (see [`description_text`]).
    pub fn description_line(&self) -> (r: String)
        ensures
            r@ == description_text(self@.name, self@.description, self@.version),
    {
        let name = self.name();
        let mut line = collapse(self.description());
        let lcs = chars_of(line.as_str());
        if lcs.len() > 0 {
            let last = lcs[lcs.len() - 1];
            if !(last == '.' || last == '!' || last == '?') {
                push_char(&mut line, '.');
            }
            push_char(&mut line, ' ');
        }
        push_str(&mut line, "Use when running the `");
        push_str(&mut line, name);
        push_str(&mut line, "` CLI or when the user asks to ");
        push_str(&mut line, name);
        push_str(&mut line, " something.");
        if let Some(v) = self.version_text() {
            push_str(&mut line, " Version ");
            push_str(&mut line, v);
            push_str(&mut line, ".");
        }
        proof {
            let summary = collapsed(self@.description);
            if summary.len() > 0 {
                if ends_sentence(summary) {
                    assert(summary.push(' ') =~= summary + " "@) by {
                        reveal_strlit(" ");
                    }
                } else {
                    assert(summary.push('.').push(' ') =~= summary + "."@ + " "@) by {
                        reveal_strlit(".");
                        reveal_strlit(" ");
                    }
                }
            }
        }
        line
    }

    /// Appends the markdown list of `cmds` under `path` (see
    /// [`commands_md`]).
    pub fn commands_into(&self, out: &mut String, path: &Vec<String>, cmds: &Vec<Command<H>>, depth: usize)
        ensures
            final(out)@ == old(out)@ + commands_md(self@.name, views(path@), cvs(cmds@), depth as int),
        decreases MAX_COMMAND_DEPTH - depth,
    {
        let ghost m = cvs(cmds@);
        let ghost start = out@;
        let ghost program = self@.name;
        proof {
            lemma_cvs(cmds@);
        }
        if depth >= MAX_COMMAND_DEPTH {
            proof {
                assert(start + Seq::<char>::empty() =~= start);
            }
            return;
        }
        let mut ind = String::new();
        let mut k: usize = 0;
        while k < depth
            invariant
                k <= depth,
                ind@ == indent(k as nat),
            decreases depth - k,
        {
            push_str(&mut ind, "  ");
            k = k + 1;
        }
        let mut i: usize = 0;
        proof {
            assert(m.take(0) =~= Seq::<(Seq<char>, CommandV)>::empty());
            assert(start + Seq::<char>::empty() =~= start);
        }
        while i < cmds.len()
            invariant
                depth < MAX_COMMAND_DEPTH,
                ind@ == indent(depth as nat),
                program == self@.name,
                m == cvs(cmds@),
                m.len() == cmds@.len(),
                forall|q: int| 0 <= q < cmds@.len() ==> #[trigger] m[q] == (cmds@[q]@.name, cmds@[q]@),
                start == old(out)@,
                i <= cmds.len(),
                out@ == start + commands_md(program, views(path@), m.take(i as int), depth as int),
            decreases cmds.len() - i,
        {
            let c = &cmds[i];
            let mut p: Vec<String> = Vec::new();
            let mut j: usize = 0;
            while j < path.len()
                invariant
                    j <= path.len(),
                    views(p@) == views(path@).take(j as int),
                decreases path.len() - j,
            {
                let it = path[j].clone();
                proof {
                    assert(views(p@.push(it)) =~= views(p@).push(it@));
                    assert(views(path@).take(j + 1) =~= views(path@).take(j as int).push(path@[j as int]@));
                }
                p.push(it);
                j = j + 1;
            }
            let ghost before_p = p@;
            p.push(owned(c.name()));
            proof {
                assert(views(p@) =~= views(before_p).push(p@.last()@));
                assert(views(path@).take(j as int) =~= views(path@));
            }
            let refs = crate::cli::path_refs(p.as_slice());
            let usage = c.usage_or_default(self.name(), refs.as_slice());
            let ghost o0 = out@;
            push_str(out, ind.as_str());
            push_str(out, "- `");
            push_str(out, usage.as_str());
            push_str(out, "` — ");
            let d = collapse(c.description());
            push_str(out, d.as_str());
            push_str(out, "\n");
            let ghost o1 = out@;
            self.commands_into(out, &p, c.subcommands(), depth + 1);
            proof {
                assert(m.take(i + 1).drop_last() =~= m.take(i as int));
                assert(m.take(i + 1).last() == m[i as int]);
                let prev = commands_md(program, views(path@), m.take(i as int), depth as int);
                let line = indent(depth as nat) + "- `"@ + usage@ + "` — "@ + d@ + "\n"@;
                let sub = commands_md(program, views(p@), m[i as int].1.subcommands, depth + 1);
                assert(o1 =~= start + prev + line);
                assert(out@ =~= start + (prev + line + sub));
            }
            i = i + 1;
        }
        proof {
            assert(m.take(i as int) =~= m);
        }
    }

    fn head_md(&self) -> (r: String)
        ensures
            r@ == "---\n"@ + "name: "@ + yaml_text(self@.name) + "\n"@ + "description: "@ + yaml_text(
                description_text(self@.name, self@.description, self@.version),
            ) + "\n"@ + "---\n\n"@ + "# "@ + self@.name + "\n\n"@ + (if collapsed(self@.description).len() > 0 {
                collapsed(self@.description) + "\n\n"@
            } else {
                Seq::empty()
            }),
    {
        let name = self.name();
        let mut out = String::new();
        push_str(&mut out, "---\n");
        push_str(&mut out, "name: ");
        let y = yaml_scalar(name);
        push_str(&mut out, y.as_str());
        push_str(&mut out, "\n");
        push_str(&mut out, "description: ");
        let dl = self.description_line();
        let yd = yaml_scalar(dl.as_str());
        push_str(&mut out, yd.as_str());
        push_str(&mut out, "\n");
        push_str(&mut out, "---\n\n");
        push_str(&mut out, "# ");
        push_str(&mut out, name);
        push_str(&mut out, "\n\n");
        let ghost head = out@;
        let summary = collapse(self.description());
        if !summary.as_str().is_empty() {
            push_str(&mut out, summary.as_str());
            push_str(&mut out, "\n\n");
        }
        proof {
            if collapsed(self@.description).len() > 0 {
                assert(out@ =~= head + (collapsed(self@.description) + "\n\n"@));
            } else {
                assert(out@ =~= head + Seq::<char>::empty());
            }
        }
        out
    }

    fn contract_section(&self) -> (r: String)
        ensures
            r@ == contract_md(self@.name),
    {
        let name = self.name();
        let mut out = String::new();
        push_str(&mut out, "## Contract\n\n");
        push_str(&mut out, "- Every `");
        push_str(&mut out, name);
        push_str(
            &mut out,
            "` invocation prints one JSON envelope on stdout: `ok`, `command`, `timestamp` (RFC 3339 UTC), `exit_code`, then `result` on success or `error` plus `fix` on failure, then `next_actions`.\n",
        );
        push_str(
            &mut out,
            "- Follow `next_actions`. When an action carries `params`, its `command` is a template: fill every placeholder before you run it. With no `params`, run the command as printed.\n",
        );
        push_str(
            &mut out,
            "- On failure, `error.code` names the failure class, `fix` says what to do about it, and `error.retryable` says whether the same call can work later.\n",
        );
        push_str(&mut out, "- `exit_code` is both the process status and a field. Branch on it.\n");
        push_str(&mut out, "- Run `");
        push_str(&mut out, name);
        push_str(&mut out, "` alone for the full command tree. Run `");
        push_str(&mut out, name);
        push_str(&mut out, " help <command>` for one command.\n\n");
        proof {
            assert(out@ =~= contract_md(self@.name));
        }
        out
    }

    fn commands_section(&self) -> (r: String)
        ensures
            r@ == if self@.commands.len() > 0 {
                "## Commands\n\n"@ + commands_md(self@.name, Seq::empty(), self@.commands, 0) + "\n"@
            } else {
                Seq::empty()
            },
    {
        let mut out = String::new();
        let cmds = self.commands();
        proof {
            lemma_cvs(cmds@);
        }
        if cmds.len() > 0 {
            push_str(&mut out, "## Commands\n\n");
            let empty: Vec<String> = Vec::new();
            proof {
                assert(views(empty@) =~= Seq::<Seq<char>>::empty());
            }
            self.commands_into(&mut out, &empty, cmds, 0);
            push_str(&mut out, "\n");
        }
        out
    }

    fn codes_section(&self) -> (r: String)
        ensures
            r@ == (if self@.reserved_flags {
                "## Agent flags\n\nAccepted on every command:\n\n"@ + items(
                    crate::usage::reserved_flag_docs_model(),
                ) + "\n"@
            } else {
                Seq::empty()
            }) + "## Exit codes\n\n"@ + items(exit_code_docs()) + "\n"@
                + "## Error codes\n\nRead from `error.code`:\n\n"@ + items(error_code_docs()),
    {
        let mut out = String::new();
        if self.reserved_flags_enabled() {
            push_str(&mut out, "## Agent flags\n\nAccepted on every command:\n\n");
            let docs = crate::usage::reserved_flag_docs();
            push_items(&mut out, &docs);
            push_str(&mut out, "\n");
        }
        let ghost flags = out@;
        push_str(&mut out, "## Exit codes\n\n");
        let exits = exit_code_docs_exec();
        push_items(&mut out, &exits);
        push_str(&mut out, "\n");
        push_str(&mut out, "## Error codes\n\nRead from `error.code`:\n\n");
        let errors = error_code_docs_exec();
        push_items(&mut out, &errors);
        proof {
            assert(out@ =~= flags + "## Exit codes\n\n"@ + items(exit_code_docs()) + "\n"@
                + "## Error codes\n\nRead from `error.code`:\n\n"@ + items(error_code_docs()));
        }
        out
    }

    /// The CLI as an agent skill file (see [`skill_md`]).
    pub fn skill_markdown(&self) -> (r: String)
        ensures
            r@ == skill_md(self@),
    {
        let mut out = self.head_md();
        let c = self.contract_section();
        push_str(&mut out, c.as_str());
        let m = self.commands_section();
        push_str(&mut out, m.as_str());
        let t = self.codes_section();
        push_str(&mut out, t.as_str());
        proof {
            assert(out@ =~= skill_md(self@));
        }
        out
    }
}

} // verus!
