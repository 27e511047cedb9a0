//! What usage strings say: the boolean flags a command declares, the
//! placeholders that become action parameters, and the framework-reserved
//! agent flags with the `--select` projection they drive.
use vstd::prelude::*;
use crate::envelope::{ActionParam, ActionParamV, NextAction, NextActionV, empty_param};
use crate::invocation::{find_char, pos_of, lemma_pos_of, sub_string};
use crate::json::{Json, JsonV, obj_insert, obj_keys, select, select_model};
use crate::text::{chars_of, join, owned, push_str, views};
use crate::timestamp::{is_whitespace, is_whitespace_exec, trim, trim_str};

verus! {

broadcast use vstd::seq_lib::group_seq_properties;

// ---------------------------------------------------------------------------
// Reserved agent flags
// ---------------------------------------------------------------------------

/// The framework-reserved flags parsed as pure booleans on every command, so
/// the parser never takes the next token for their value. `select` is a
/// value flag and is not among them.
pub open spec fn reserved_bool_flags() -> Seq<Seq<char>> {
    seq![
        "json"@,
        "dry-run"@,
        "compact"@,
        "stdin"@,
        "quiet"@,
        "yes"@,
        "no-input"@,
        "no-cache"@,
        "no-color"@,
    ]
}

/// A value that turns a reserved boolean flag off: `false`, `0`, `no` or
/// `off` (`--dry-run=false`).
pub open spec fn is_negation(v: Seq<char>) -> bool {
    v == "false"@ || v == "0"@ || v == "no"@ || v == "off"@
}

/// Whether the reserved boolean flag `name` is on: given, and not given one
/// of the negating values.
pub open spec fn flag_on(flags: Map<Seq<char>, Seq<char>>, name: Seq<char>) -> bool {
    flags.contains_key(name) && !is_negation(flags[name])
}

/// Whether `v` negates a reserved boolean flag (see [`is_negation`]).
pub fn negates(v: &str) -> (r: bool)
    ensures
        r == is_negation(v@),
{
    crate::text::str_eq(v, "false") || crate::text::str_eq(v, "0") || crate::text::str_eq(v, "no")
        || crate::text::str_eq(v, "off")
}

/// Whether the reserved boolean flag `name` is on in `inv` (see [`flag_on`]).
pub fn reserved_flag_on(inv: &crate::invocation::Invocation, name: &str) -> (r: bool)
    ensures
        r == flag_on(inv@.flags, name@),
{
    match inv.flag(name) {
        Some(v) => !negates(v),
        None => false,
    }
}

/// Whether `flag` is one of the reserved boolean flags.
pub fn is_reserved_bool(flag: &str) -> (r: bool)
    ensures
        r == reserved_bool_flags().contains(flag@),
{
    let names = reserved_bool_names();
    let mut i: usize = 0;
    while i < names.len()
        invariant
            crate::suggest::str_views(names@) == reserved_bool_flags(),
            i <= names.len(),
            forall|k: int| 0 <= k < i ==> reserved_bool_flags()[k] != flag@,
        decreases names.len() - i,
    {
        if crate::text::str_eq(names[i], flag) {
            proof {
                assert(reserved_bool_flags()[i as int] == flag@);
            }
            return true;
        }
        i = i + 1;
    }
    false
}

pub fn reserved_bool_names() -> (r: Vec<&'static str>)
    ensures
        crate::suggest::str_views(r@) == reserved_bool_flags(),
{
    let r = vec!["json", "dry-run", "compact", "stdin", "quiet", "yes", "no-input", "no-cache", "no-color"];
    assert(crate::suggest::str_views(r@) =~= reserved_bool_flags());
    r
}

/// Every framework-reserved flag name, without the leading `--`.
pub open spec fn reserved_names() -> Seq<Seq<char>> {
    seq!["select"@] + reserved_bool_flags()
}

/// Every framework-reserved flag name (without the leading `--`), for runtime
/// discovery. `select` is a value flag; the others are parsed as booleans
/// anywhere on the line.
pub fn reserved_flag_names() -> (r: Vec<&'static str>)
    ensures
        crate::suggest::str_views(r@) == reserved_names(),
{
    let r = vec![
        "select",
        "json",
        "dry-run",
        "compact",
        "stdin",
        "quiet",
        "yes",
        "no-input",
        "no-cache",
        "no-color",
    ];
    assert(crate::suggest::str_views(r@) =~= reserved_names());
    r
}

/// The reserved agent flags with what they do, in the order the root tree
/// lists them.
pub open spec fn reserved_flag_docs_model() -> Seq<(Seq<char>, Seq<char>)> {
    seq![
        (
            "--select=<a,b,c>"@,
            "Project the result to only these fields (top-level keys or `a.b` dot paths; maps over arrays)."@,
        ),
        (
            "--compact"@,
            "Drop null and empty result fields (or keep a command's declared high-gravity allowlist)."@,
        ),
        ("--quiet"@, "Omit `next_actions` from the envelope."@),
        ("--dry-run"@, "Preview without mutating; read via `req.dry_run()`."@),
        ("--yes / --no-input"@, "Assume yes; never prompt interactively (`req.assume_yes()`)."@),
        ("--no-cache"@, "Bypass any local cache (`req.no_cache()`)."@),
        ("--no-color"@, "Emit machine-friendly, uncolored output (`req.no_color()`)."@),
        ("--stdin"@, "Read piped input; pair with `agcli::read_stdin()` (`req.wants_stdin()`)."@),
    ]
}

pub fn reserved_flag_docs() -> (r: Vec<(&'static str, &'static str)>)
    ensures
        r@.map_values(|p: (&'static str, &'static str)| (p.0@, p.1@)) == reserved_flag_docs_model(),
{
    let r = vec![
        (
            "--select=<a,b,c>",
            "Project the result to only these fields (top-level keys or `a.b` dot paths; maps over arrays).",
        ),
        (
            "--compact",
            "Drop null and empty result fields (or keep a command's declared high-gravity allowlist).",
        ),
        ("--quiet", "Omit `next_actions` from the envelope."),
        ("--dry-run", "Preview without mutating; read via `req.dry_run()`."),
        ("--yes / --no-input", "Assume yes; never prompt interactively (`req.assume_yes()`)."),
        ("--no-cache", "Bypass any local cache (`req.no_cache()`)."),
        ("--no-color", "Emit machine-friendly, uncolored output (`req.no_color()`)."),
        ("--stdin", "Read piped input; pair with `agcli::read_stdin()` (`req.wants_stdin()`)."),
    ];
    assert(r@.map_values(|p: (&'static str, &'static str)| (p.0@, p.1@)) =~= reserved_flag_docs_model());
    r
}

// ---------------------------------------------------------------------------
// --select values
// ---------------------------------------------------------------------------

/// Splits `s` at every `c`: the pieces completed and the piece being read.
pub open spec fn split_scan(s: Seq<char>, c: char) -> (Seq<Seq<char>>, Seq<char>)
    decreases s.len(),
{
    if s.len() == 0 {
        (Seq::empty(), Seq::empty())
    } else {
        let (done, cur) = split_scan(s.drop_last(), c);
        if s.last() == c {
            (done.push(cur), Seq::empty())
        } else {
            (done, cur.push(s.last()))
        }
    }
}

/// The pieces of `s` between occurrences of `c`, empty ones included.
pub open spec fn split_on(s: Seq<char>, c: char) -> Seq<Seq<char>> {
    let (done, cur) = split_scan(s, c);
    done.push(cur)
}

/// The trimmed pieces that are not empty, in order.
pub open spec fn trimmed_nonempty(ps: Seq<Seq<char>>) -> Seq<Seq<char>>
    decreases ps.len(),
{
    if ps.len() == 0 {
        Seq::empty()
    } else {
        let prev = trimmed_nonempty(ps.drop_last());
        let t = trim(ps.last());
        if t.len() > 0 {
            prev.push(t)
        } else {
            prev
        }
    }
}

/// The field names of a `--select` value (`"id,name, body"`).
pub open spec fn select_field_list(raw: Seq<char>) -> Seq<Seq<char>> {
    trimmed_nonempty(split_on(raw, ','))
}

/// Splits a `--select` value into trimmed, non-empty field names.
pub fn parse_select_fields(raw: &str) -> (r: Vec<String>)
    ensures
        views(r@) == select_field_list(raw@),
{
    let cs = chars_of(raw);
    let mut out: Vec<String> = Vec::new();
    let mut cur: Vec<char> = Vec::new();
    let ghost mut done: Seq<Seq<char>> = Seq::empty();
    let mut i: usize = 0;
    while i < cs.len()
        invariant
            cs@ == raw@,
            i <= cs.len(),
            (done, cur@) == split_scan(raw@.take(i as int), ','),
            views(out@) == trimmed_nonempty(done),
        decreases cs.len() - i,
    {
        proof {
            assert(raw@.take(i + 1).drop_last() =~= raw@.take(i as int));
        }
        if cs[i] == ',' {
            let t = trim_str(cur.as_slice());
            proof {
                assert(done.push(cur@).drop_last() =~= done);
            }
            if !t.as_str().is_empty() {
                proof {
                    assert(views(out@.push(t)) =~= views(out@).push(t@));
                }
                out.push(t);
            }
            proof {
                done = done.push(cur@);
            }
            cur = Vec::new();
        } else {
            cur.push(cs[i]);
        }
        i = i + 1;
    }
    proof {
        assert(raw@.take(i as int) =~= raw@);
        assert(done.push(cur@).drop_last() =~= done);
    }
    let t = trim_str(cur.as_slice());
    if !t.as_str().is_empty() {
        proof {
            assert(views(out@.push(t)) =~= views(out@).push(t@));
        }
        out.push(t);
    }
    out
}

/// The warning for a `--select` with no field names.
pub open spec fn no_fields_warning() -> Seq<char> {
    "--select was given no field names. Returning the full result. Re-run with --select=<field>[,<field>...]."@
}

/// The warning for a `--select` that matched nothing of a non-empty object.
pub open spec fn no_match_warning(fields: Seq<Seq<char>>, keys: Seq<Seq<char>>) -> Seq<char> {
    "--select="@ + join(fields, ","@) + " matched no fields. Available top-level fields: "@ + join(
        keys,
        ", "@,
    ) + ". Returning the full result; re-run --select with a valid field name."@
}

/// An object gains a `select_warning` field; anything else is unchanged.
pub open spec fn annotate_model(v: JsonV, warning: Seq<char>) -> JsonV {
    match v {
        JsonV::Object(m) => JsonV::Object(obj_insert(m, "select_warning"@, JsonV::Str(warning))),
        _ => v,
    }
}

/// What a reserved `--select=raw` makes of a result: the projection, unless
/// the value names no field, or the projection would turn a non-empty object
/// into an empty one. Then the full result comes back with a warning that
/// names the available fields, so no data is silently wiped.
pub open spec fn apply_select_model(v: JsonV, raw: Seq<char>) -> JsonV {
    let fields = select_field_list(raw);
    if fields.len() == 0 {
        annotate_model(v, no_fields_warning())
    } else {
        let p = select_model(v, fields);
        if v is Object && v->Object_0.len() > 0 && p is Object && p->Object_0.len() == 0 {
            annotate_model(v, no_match_warning(fields, obj_keys(v->Object_0)))
        } else {
            p
        }
    }
}

/// Attaches a `select_warning` note to an object result; arrays and scalars
/// come back unchanged.
pub fn annotate_select_warning(result: Json, warning: String) -> (r: Json)
    ensures
        r@ == annotate_model(result@, warning@),
{
    match result {
        Json::Object(mut map) => {
            crate::json::obj_insert_exec(&mut map, owned("select_warning"), Json::Str(warning));
            Json::Object(map)
        },
        other => other,
    }
}

/// The keys of an object's entries.
fn entry_keys(e: &Vec<(String, Json)>) -> (r: Vec<String>)
    ensures
        views(r@) == obj_keys(crate::json::jes(e@)),
{
    proof {
        crate::json::lemma_jes(e@);
    }
    let mut r: Vec<String> = Vec::new();
    let mut i: usize = 0;
    while i < e.len()
        invariant
            i <= e.len(),
            r@.len() == i,
            crate::json::jes(e@).len() == e@.len(),
            forall|q: int| 0 <= q < e@.len() ==> #[trigger] crate::json::jes(e@)[q] == (e@[q].0@, crate::json::jv(e@[q].1)),
            forall|q: int| 0 <= q < i ==> #[trigger] r@[q]@ == e@[q].0@,
        decreases e.len() - i,
    {
        r.push(e[i].0.clone());
        i = i + 1;
    }
    assert(views(r@) =~= obj_keys(crate::json::jes(e@)));
    r
}

/// Applies a reserved `--select` value to a handler result (see
/// [`apply_select_model`]).
pub fn apply_select_flag(result: Json, raw: &str) -> (r: Json)
    ensures
        r@ == apply_select_model(result@, raw@),
{
    let fields = parse_select_fields(raw);
    if fields.len() == 0 {
        let mut w = String::new();
        push_str(
            &mut w,
            "--select was given no field names. Returning the full result. Re-run with --select=<field>[,<field>...].",
        );
        return annotate_select_warning(result, w);
    }
    let mut refs: Vec<&str> = Vec::new();
    let mut i: usize = 0;
    while i < fields.len()
        invariant
            i <= fields.len(),
            refs@.len() == i,
            forall|q: int| 0 <= q < i ==> #[trigger] refs@[q]@ == fields@[q]@,
        decreases fields.len() - i,
    {
        refs.push(fields[i].as_str());
        i = i + 1;
    }
    proof {
        assert(crate::suggest::str_views(refs@) =~= views(fields@));
    }
    let projected = select(&result, refs.as_slice());
    let source_nonempty = match &result {
        Json::Object(map) => map.len() > 0,
        _ => false,
    };
    let projected_empty = match &projected {
        Json::Object(map) => map.len() == 0,
        _ => false,
    };
    proof {
        match &result {
            Json::Object(map) => crate::json::lemma_jes(map@),
            _ => {},
        }
        match &projected {
            Json::Object(map) => crate::json::lemma_jes(map@),
            _ => {},
        }
    }
    if source_nonempty && projected_empty {
        let available = match &result {
            Json::Object(map) => entry_keys(map),
            _ => Vec::new(),
        };
        let mut w = String::new();
        push_str(&mut w, "--select=");
        let joined = crate::text::join_strings(fields.as_slice(), ",");
        push_str(&mut w, joined.as_str());
        push_str(&mut w, " matched no fields. Available top-level fields: ");
        let keys = crate::text::join_strings(available.as_slice(), ", ");
        push_str(&mut w, keys.as_str());
        push_str(&mut w, ". Returning the full result; re-run --select with a valid field name.");
        return annotate_select_warning(result, w);
    }
    projected
}

// ---------------------------------------------------------------------------
// Placeholders: usage string → action template
// ---------------------------------------------------------------------------

/// A placeholder name that becomes a parameter: non-empty and without `.`.
pub open spec fn placeholder_ok(n: Seq<char>) -> bool {
    n.len() > 0 && !n.contains('.')
}

/// The placeholder inside a bracket: the text between its first `<` and the
/// next `>`.
pub open spec fn bracket_placeholder(content: Seq<char>) -> Option<Seq<char>> {
    match pos_of(content, '<') {
        None => None,
        Some(a) => match pos_of(content.skip(a), '>') {
            None => None,
            Some(b) => Some(content.subrange(a + 1, a + b)),
        },
    }
}

/// The placeholders of a usage string, in order, each with whether it is
/// required. A bare `<name>` is required; a placeholder anywhere inside
/// `[...]` is optional; a bracket without one adds nothing.
pub open spec fn usage_placeholders(s: Seq<char>) -> Seq<(Seq<char>, bool)>
    decreases s.len(),
{
    if s.len() == 0 {
        Seq::empty()
    } else if s[0] == '[' && pos_of(s, ']') is Some {
        let close = pos_of(s, ']')->0;
        let rest = {
            proof {
                lemma_pos_of(s, ']');
            }
            usage_placeholders(s.skip(close + 1))
        };
        match bracket_placeholder(s.subrange(1, close)) {
            Some(n) => if placeholder_ok(n) {
                seq![(n, false)] + rest
            } else {
                rest
            },
            None => rest,
        }
    } else if s[0] == '<' && pos_of(s, '>') is Some {
        let close = pos_of(s, '>')->0;
        let rest = {
            proof {
                lemma_pos_of(s, '>');
            }
            usage_placeholders(s.skip(close + 1))
        };
        let n = s.subrange(1, close);
        if placeholder_ok(n) {
            seq![(n, true)] + rest
        } else {
            rest
        }
    } else {
        usage_placeholders(s.drop_first())
    }
}

/// A parameter that only says whether it is required.
pub open spec fn req_param(required: bool) -> ActionParamV {
    ActionParamV { required: Some(required), ..empty_param() }
}

/// The parameters of a list of placeholders, a later one replacing an
/// earlier one of the same name.
pub open spec fn params_of(ps: Seq<(Seq<char>, bool)>) -> Seq<(Seq<char>, ActionParamV)>
    decreases ps.len(),
{
    if ps.len() == 0 {
        Seq::empty()
    } else {
        obj_insert(params_of(ps.drop_last()), ps.last().0, req_param(ps.last().1))
    }
}

/// The action template a usage string stands for: the usage as the command,
/// with one parameter per placeholder, or no parameters at all.
pub open spec fn action_from_usage(usage: Seq<char>, description: Seq<char>) -> NextActionV {
    let ps = usage_placeholders(usage);
    NextActionV {
        command: usage,
        description,
        params: if ps.len() == 0 {
            None
        } else {
            Some(params_of(ps))
        },
    }
}

fn placeholder_ok_exec(n: &[char]) -> (r: bool)
    ensures
        r == placeholder_ok(n@),
{
    proof {
        lemma_pos_of(n@, '.');
    }
    n.len() > 0 && find_char(n, '.').is_none()
}

fn bracket_placeholder_exec(content: &[char]) -> (r: Option<String>)
    ensures
        match r {
            Some(n) => bracket_placeholder(content@) == Some(n@),
            None => bracket_placeholder(content@) is None,
        },
{
    proof {
        lemma_pos_of(content@, '<');
    }
    match find_char(content, '<') {
        None => None,
        Some(a) => {
            let tail = vstd::slice::slice_subrange(content, a, content.len());
            proof {
                assert(tail@ =~= content@.skip(a as int));
                lemma_pos_of(tail@, '>');
            }
            match find_char(tail, '>') {
                None => None,
                Some(b) => Some(sub_string(content, a + 1, a + b)),
            }
        },
    }
}

/// One scanning step over `cs` from `i`: where scanning resumes and the
/// placeholder met on the way, if any.
fn placeholder_step(cs: &[char], i: usize) -> (r: (usize, Option<(String, bool)>))
    requires
        i < cs@.len(),
    ensures
        i < r.0 <= cs@.len(),
        usage_placeholders(cs@.skip(i as int)) == match r.1 {
            Some((n, req)) => seq![(n@, req)],
            None => Seq::empty(),
        } + usage_placeholders(cs@.skip(r.0 as int)),
{
    let s = vstd::slice::slice_subrange(cs, i, cs.len());
    let ghost sv = cs@.skip(i as int);
    proof {
        assert(s@ =~= sv);
    }
    if cs[i] == '[' {
        proof {
            lemma_pos_of(sv, ']');
        }
        if let Some(close) = find_char(s, ']') {
            let content = vstd::slice::slice_subrange(s, 1, close);
            proof {
                assert(content@ =~= sv.subrange(1, close as int));
                assert(sv.skip(close + 1) =~= cs@.skip(i + close + 1));
            }
            let next = i + close + 1;
            match bracket_placeholder_exec(content) {
                Some(name) => {
                    let ncs = chars_of(name.as_str());
                    if placeholder_ok_exec(ncs.as_slice()) {
                        return (next, Some((name, false)));
                    }
                    proof {
                        assert(Seq::<(Seq<char>, bool)>::empty() + usage_placeholders(
                            cs@.skip(next as int),
                        ) =~= usage_placeholders(cs@.skip(next as int)));
                    }
                    return (next, None);
                },
                None => {
                    proof {
                        assert(Seq::<(Seq<char>, bool)>::empty() + usage_placeholders(
                            cs@.skip(next as int),
                        ) =~= usage_placeholders(cs@.skip(next as int)));
                    }
                    return (next, None);
                },
            }
        }
    }
    if cs[i] == '<' {
        proof {
            lemma_pos_of(sv, '>');
        }
        if let Some(close) = find_char(s, '>') {
            let name = sub_string(s, 1, close);
            let next = i + close + 1;
            proof {
                assert(sv.skip(close + 1) =~= cs@.skip(next as int));
            }
            let ncs = chars_of(name.as_str());
            if placeholder_ok_exec(ncs.as_slice()) {
                return (next, Some((name, true)));
            }
            proof {
                assert(Seq::<(Seq<char>, bool)>::empty() + usage_placeholders(cs@.skip(next as int))
                    =~= usage_placeholders(cs@.skip(next as int)));
            }
            return (next, None);
        }
    }
    proof {
        assert(sv.drop_first() =~= cs@.skip(i + 1));
        assert(Seq::<(Seq<char>, bool)>::empty() + usage_placeholders(cs@.skip(i + 1))
            =~= usage_placeholders(cs@.skip(i + 1)));
    }
    (i + 1, None)
}

/// Builds the action template for a usage string (see [`action_from_usage`]).
pub fn next_action_from_usage(usage: &str, description: &str) -> (r: NextAction)
    ensures
        r@ == action_from_usage(usage@, description@),
{
    let cs = chars_of(usage);
    let mut action = NextAction::new(usage, description);
    let ghost mut done: Seq<(Seq<char>, bool)> = Seq::empty();
    let mut i: usize = 0;
    proof {
        assert(usage@.skip(0) =~= usage@);
        assert(done + usage_placeholders(usage@) =~= usage_placeholders(usage@));
    }
    while i < cs.len()
        invariant
            cs@ == usage@,
            i <= cs.len(),
            usage_placeholders(usage@) == done + usage_placeholders(usage@.skip(i as int)),
            action@.command == usage@,
            action@.description == description@,
            action@.params == if done.len() == 0 {
                None
            } else {
                Some(params_of(done))
            },
        decreases cs.len() - i,
    {
        let (next, found) = placeholder_step(cs.as_slice(), i);
        match found {
            Some((name, req)) => {
                let param = ActionParam::new().required(req);
                proof {
                    assert(param@ == req_param(req));
                }
                let ghost prev = action@.params;
                action = action.with_param(name.as_str(), param);
                proof {
                    assert(done.push((name@, req)).drop_last() =~= done);
                    assert(params_of(done.push((name@, req))) == obj_insert(
                        params_of(done),
                        name@,
                        req_param(req),
                    ));
                    if done.len() == 0 {
                        assert(params_of(done) =~= Seq::<(Seq<char>, ActionParamV)>::empty());
                    }
                    assert(done + (seq![(name@, req)] + usage_placeholders(usage@.skip(next as int)))
                        =~= done.push((name@, req)) + usage_placeholders(usage@.skip(next as int)));
                    done = done.push((name@, req));
                }
            },
            None => {
                proof {
                    assert(done + (Seq::<(Seq<char>, bool)>::empty() + usage_placeholders(
                        usage@.skip(next as int),
                    )) =~= done + usage_placeholders(usage@.skip(next as int)));
                }
            },
        }
        i = next;
    }
    proof {
        assert(usage@.skip(i as int) =~= Seq::<char>::empty());
        assert(done + Seq::<(Seq<char>, bool)>::empty() =~= done);
    }
    action
}

// ---------------------------------------------------------------------------
// Boolean flags declared by a usage string
// ---------------------------------------------------------------------------

/// Length of the leading run of non-whitespace characters.
pub open spec fn word_len(t: Seq<char>) -> nat
    decreases t.len(),
{
    if t.len() == 0 || is_whitespace(t[0]) {
        0
    } else {
        1 + word_len(t.drop_first())
    }
}

/// The first whitespace-separated word of `s` (empty when there is none).
pub open spec fn first_word(s: Seq<char>) -> Seq<char> {
    let t = crate::timestamp::trim_start(s);
    t.take(word_len(t) as int)
}

/// The boolean flags one bracket declares: `[--name]` gives `name`, `[-x]`
/// or `[-abc]` one flag per letter; a bracket holding `<` or `=` declares a
/// value flag and gives none.
pub open spec fn bracket_bool_flags(inner: Seq<char>) -> Seq<Seq<char>> {
    if inner.contains('<') || inner.contains('=') {
        Seq::empty()
    } else if inner.len() >= 2 && inner[0] == '-' && inner[1] == '-' {
        let name = first_word(inner.skip(2));
        if name.len() > 0 {
            seq![name]
        } else {
            Seq::empty()
        }
    } else if inner.len() >= 1 && inner[0] == '-' {
        first_word(inner.skip(1)).map_values(|c: char| seq![c])
    } else {
        Seq::empty()
    }
}

/// The boolean flags a usage string declares, bracket by bracket; scanning
/// stops at a `[` that is never closed.
pub open spec fn bool_flag_names(s: Seq<char>) -> Seq<Seq<char>>
    decreases s.len(),
{
    match pos_of(s, '[') {
        None => Seq::empty(),
        Some(i) => {
            let after = s.skip(i + 1);
            match pos_of(after, ']') {
                None => Seq::empty(),
                Some(c) => bracket_bool_flags(after.take(c)) + {
                    proof {
                        lemma_pos_of(s, '[');
                        lemma_pos_of(after, ']');
                    }
                    bool_flag_names(after.skip(c + 1))
                },
            }
        },
    }
}

fn first_word_exec(cs: &[char]) -> (r: Vec<char>)
    ensures
        r@ == first_word(cs@),
{
    let mut a: usize = 0;
    while a < cs.len() && is_whitespace_exec(cs[a])
        invariant
            a <= cs.len(),
            forall|k: int| 0 <= k < a ==> is_whitespace(cs@[k]),
        decreases cs.len() - a,
    {
        a = a + 1;
    }
    let ghost t = cs@.skip(a as int);
    proof {
        crate::timestamp::lemma_trim_start_at(cs@, a as int);
    }
    let mut out: Vec<char> = Vec::new();
    let mut b: usize = a;
    while b < cs.len() && !is_whitespace_exec(cs[b])
        invariant
            a <= b <= cs.len(),
            t == cs@.skip(a as int),
            out@ == t.take(b - a),
            word_len(t) == (b - a) + word_len(t.skip(b - a)),
        decreases cs.len() - b,
    {
        proof {
            assert(t.skip(b - a).drop_first() =~= t.skip(b - a + 1));
            assert(t.skip(b - a)[0] == cs@[b as int]);
            assert(t.take(b - a + 1) =~= t.take(b - a).push(cs@[b as int]));
        }
        out.push(cs[b]);
        b = b + 1;
    }
    proof {
        if b < cs.len() {
            assert(t.skip(b - a)[0] == cs@[b as int]);
        }
    }
    out
}

fn bracket_bool_flags_exec(inner: &[char]) -> (r: Vec<String>)
    ensures
        views(r@) == bracket_bool_flags(inner@),
{
    proof {
        lemma_pos_of(inner@, '<');
        lemma_pos_of(inner@, '=');
    }
    if find_char(inner, '<').is_some() || find_char(inner, '=').is_some() {
        proof {
            assert(views(Seq::<String>::empty()) =~= Seq::<Seq<char>>::empty());
        }
        return Vec::new();
    }
    if inner.len() >= 2 && inner[0] == '-' && inner[1] == '-' {
        let rest = vstd::slice::slice_subrange(inner, 2, inner.len());
        proof {
            assert(rest@ =~= inner@.skip(2));
        }
        let w = first_word_exec(rest);
        let mut r: Vec<String> = Vec::new();
        if w.len() > 0 {
            r.push(crate::text::string_of(w.as_slice()));
        }
        proof {
            assert(views(r@) =~= bracket_bool_flags(inner@));
        }
        return r;
    }
    if inner.len() >= 1 && inner[0] == '-' {
        let rest = vstd::slice::slice_subrange(inner, 1, inner.len());
        proof {
            assert(rest@ =~= inner@.skip(1));
        }
        let w = first_word_exec(rest);
        let mut r: Vec<String> = Vec::new();
        let mut k: usize = 0;
        while k < w.len()
            invariant
                k <= w.len(),
                r@.len() == k,
                forall|q: int| 0 <= q < k ==> #[trigger] r@[q]@ == seq![w@[q]],
            decreases w.len() - k,
        {
            let one = [w[k]];
            let s1 = crate::text::string_of(&one);
            proof {
                assert(one@ =~= seq![w@[k as int]]);
            }
            r.push(s1);
            k = k + 1;
        }
        proof {
            assert(views(r@) =~= w@.map_values(|c: char| seq![c]));
        }
        return r;
    }
    proof {
        assert(views(Seq::<String>::empty()) =~= Seq::<Seq<char>>::empty());
    }
    Vec::new()
}

/// Adds `name` to the set `set` of flag names.
pub fn set_insert(set: &mut Vec<String>, name: String)
    ensures
        views(final(set)@).to_set() == views(old(set)@).to_set().insert(name@),
{
    let mut i: usize = 0;
    while i < set.len()
        invariant
            *set == *old(set),
            i <= set.len(),
            forall|q: int| 0 <= q < i ==> set@[q]@ != name@,
        decreases set.len() - i,
    {
        if crate::text::str_eq(set[i].as_str(), name.as_str()) {
            proof {
                assert(views(set@)[i as int] == name@);
                assert(views(set@).to_set() =~= views(set@).to_set().insert(name@));
            }
            return;
        }
        i = i + 1;
    }
    let ghost before = set@;
    set.push(name);
    proof {
        assert(views(set@) =~= views(before).push(name@));
        assert(views(set@).to_set() =~= views(before).to_set().insert(name@));
    }
}

/// Adds every name of `names` to the set `set`.
pub fn set_insert_all(set: &mut Vec<String>, names: &Vec<String>)
    ensures
        views(final(set)@).to_set() == views(old(set)@).to_set() + views(names@).to_set(),
{
    let mut k: usize = 0;
    while k < names.len()
        invariant
            k <= names.len(),
            views(set@).to_set() == views(old(set)@).to_set() + views(names@).take(k as int).to_set(),
        decreases names.len() - k,
    {
        proof {
            assert(views(names@).take(k + 1) =~= views(names@).take(k as int).push(names@[k as int]@));
            assert(views(names@).take(k + 1).to_set() =~= views(names@).take(k as int).to_set().insert(
                names@[k as int]@,
            ));
        }
        set_insert(set, names[k].clone());
        k = k + 1;
    }
    proof {
        assert(views(names@).take(k as int) =~= views(names@));
    }
}

/// One scanning step over `cs` from `i`: `None` when no closed bracket is
/// left, else where scanning resumes and the flags of the bracket passed.
pub fn bool_flag_step(cs: &[char], i: usize) -> (r: Option<(usize, Vec<String>)>)
    requires
        i <= cs@.len(),
    ensures
        match r {
            None => bool_flag_names(cs@.skip(i as int)) == Seq::<Seq<char>>::empty(),
            Some((j, names)) => i < j <= cs@.len() && bool_flag_names(cs@.skip(i as int)) == views(
                names@,
            ) + bool_flag_names(cs@.skip(j as int)),
        },
{
    let s = vstd::slice::slice_subrange(cs, i, cs.len());
    let ghost sv = cs@.skip(i as int);
    proof {
        assert(s@ =~= sv);
        lemma_pos_of(sv, '[');
    }
    let p = match find_char(s, '[') {
        None => {
            return None;
        },
        Some(p) => p,
    };
    let after = vstd::slice::slice_subrange(s, p + 1, s.len());
    proof {
        assert(after@ =~= sv.skip(p + 1));
        lemma_pos_of(after@, ']');
    }
    let c = match find_char(after, ']') {
        None => {
            return None;
        },
        Some(c) => c,
    };
    let inner = vstd::slice::slice_subrange(after, 0, c);
    proof {
        assert(inner@ =~= after@.take(c as int));
        assert(after@.skip(c + 1) =~= cs@.skip(i + p + 1 + c + 1));
    }
    let names = bracket_bool_flags_exec(inner);
    Some((i + p + 1 + c + 1, names))
}

/// The boolean flags `usage` declares, in order.
pub fn bool_flag_list(usage: &str) -> (r: Vec<String>)
    ensures
        views(r@) == bool_flag_names(usage@),
{
    let cs = crate::text::chars_of(usage);
    let mut out: Vec<String> = Vec::new();
    let mut i: usize = 0;
    let mut finished = false;
    proof {
        assert(usage@.skip(0) =~= usage@);
        assert(views(out@) + bool_flag_names(usage@) =~= bool_flag_names(usage@));
    }
    while !finished
        invariant
            cs@ == usage@,
            i <= cs.len(),
            bool_flag_names(usage@) == views(out@) + bool_flag_names(usage@.skip(i as int)),
            finished ==> bool_flag_names(usage@.skip(i as int)) == Seq::<Seq<char>>::empty(),
        decreases cs.len() - i, if finished { 0nat } else { 1nat },
    {
        match bool_flag_step(cs.as_slice(), i) {
            None => {
                finished = true;
            },
            Some((j, names)) => {
                let ghost before = views(out@);
                let mut more = names;
                let ghost mv = views(more@);
                out.append(&mut more);
                proof {
                    assert(views(out@) =~= before + mv);
                    assert(before + (mv + bool_flag_names(usage@.skip(j as int))) =~= views(out@)
                        + bool_flag_names(usage@.skip(j as int)));
                }
                i = j;
            },
        }
    }
    proof {
        assert(views(out@) + Seq::<Seq<char>>::empty() =~= views(out@));
    }
    out
}

/// Adds every boolean flag that `usage` declares to `set` (see
/// [`bool_flag_names`]).
pub fn extract_bool_flag_names(usage: &str, set: &mut Vec<String>)
    ensures
        views(final(set)@).to_set() == views(old(set)@).to_set() + bool_flag_names(usage@).to_set(),
{
    let names = bool_flag_list(usage);
    set_insert_all(set, &names);
}

/// A reserved `--select` never wipes a non-empty object result: whatever
/// `raw` holds, the answer is an object with at least one field, and when
/// `raw` names no field, or names none the result has, every field of the
/// result is still there (next to a `select_warning`).
pub proof fn law_select_flag_never_wipes(m: Seq<(Seq<char>, JsonV)>, raw: Seq<char>)
    requires
        m.len() > 0,
    ensures
        apply_select_model(JsonV::Object(m), raw) matches JsonV::Object(r) && r.len() > 0,
        ({
            let fields = select_field_list(raw);
            let p = crate::json::select_fields_model(m, fields);
            (fields.len() == 0 || p.len() == 0) ==> forall|k: Seq<char>|
                k != "select_warning"@ && crate::json::obj_get(m, k) is Some ==> crate::json::obj_get(
                    apply_select_model(JsonV::Object(m), raw)->Object_0,
                    k,
                ) == crate::json::obj_get(m, k)
        }),
{
    let fields = select_field_list(raw);
    let p = crate::json::select_fields_model(m, fields);
    if fields.len() == 0 {
        crate::json::lemma_obj_insert_nonempty(m, "select_warning"@, JsonV::Str(no_fields_warning()));
        assert forall|k: Seq<char>| k != "select_warning"@ && crate::json::obj_get(m, k) is Some implies
            crate::json::obj_get(apply_select_model(JsonV::Object(m), raw)->Object_0, k)
            == crate::json::obj_get(m, k) by {
            crate::json::law_obj_get_insert_other(
                m,
                "select_warning"@,
                JsonV::Str(no_fields_warning()),
                k,
            );
        }
    } else if p.len() == 0 {
        let w = JsonV::Str(no_match_warning(fields, crate::json::obj_keys(m)));
        crate::json::lemma_obj_insert_nonempty(m, "select_warning"@, w);
        assert forall|k: Seq<char>| k != "select_warning"@ && crate::json::obj_get(m, k) is Some implies
            crate::json::obj_get(apply_select_model(JsonV::Object(m), raw)->Object_0, k)
            == crate::json::obj_get(m, k) by {
            crate::json::law_obj_get_insert_other(m, "select_warning"@, w, k);
        }
    }
}

} // verus!
