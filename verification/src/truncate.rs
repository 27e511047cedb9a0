//! Context-safe truncation of large line-oriented output: the tail stays
//! inline, the head is counted, and the full output is referred to by a file
//! path.
use vstd::prelude::*;
use crate::text::{decimal, owned, push_char, push_decimal, push_decimal_wide, push_str, views};

verus! {

broadcast use vstd::seq_lib::group_seq_properties;

/// Context-safe result for potentially large line-oriented output. When
/// truncated, `entries` holds the last `lines` lines, `dropped` counts the
/// lines elided from the front, and `full_output` names the file holding
/// everything.
#[derive(Clone, Debug, PartialEq, Eq)]
pub struct TruncatedEntries {
    pub lines: usize,
    pub total: usize,
    /// Lines dropped from the head (`total - lines`); `0` when not truncated.
    pub dropped: usize,
    pub truncated: bool,
    pub full_output: Option<String>,
    pub entries: Vec<String>,
}

/// The effective cap: `max_lines`, floored to one.
pub open spec fn cap(max_lines: nat) -> nat {
    if max_lines == 0 {
        1
    } else {
        max_lines
    }
}

/// Whether `total` lines fit under the cap without truncation.
pub fn fits(total: usize, max_lines: usize) -> (r: bool)
    ensures
        r == (total <= cap(max_lines as nat)),
{
    let c = if max_lines == 0 {
        1
    } else {
        max_lines
    };
    total <= c
}

/// The untruncated view of `lines`.
pub fn keep_all(lines: Vec<String>) -> (r: TruncatedEntries)
    ensures
        r.lines == lines@.len(),
        r.total == lines@.len(),
        r.dropped == 0,
        !r.truncated,
        r.full_output is None,
        views(r.entries@) == views(lines@),
{
    let total = lines.len();
    TruncatedEntries {
        lines: total,
        total,
        dropped: 0,
        truncated: false,
        full_output: None,
        entries: lines,
    }
}

/// The truncated view of `lines`: the last `cap(max_lines)` lines, with the
/// full output at `full_output`.
pub fn keep_tail(lines: Vec<String>, max_lines: usize, full_output: String) -> (r: TruncatedEntries)
    requires
        lines@.len() > cap(max_lines as nat),
    ensures
        r.total == lines@.len(),
        r.lines == cap(max_lines as nat),
        r.dropped == lines@.len() - cap(max_lines as nat),
        r.truncated,
        r.full_output matches Some(p) && p@ == full_output@,
        views(r.entries@) == views(lines@).skip(lines@.len() - cap(max_lines as nat)),
{
    let c = if max_lines == 0 {
        1
    } else {
        max_lines
    };
    let total = lines.len();
    let start = total - c;
    let mut entries: Vec<String> = Vec::new();
    let mut i: usize = start;
    while i < total
        invariant
            total == lines@.len(),
            start <= i <= total,
            entries@.len() == i - start,
            forall|q: int| 0 <= q < i - start ==> #[trigger] entries@[q]@ == lines@[start + q]@,
        decreases total - i,
    {
        entries.push(lines[i].clone());
        i = i + 1;
    }
    assert(views(entries@) =~= views(lines@).skip(start as int));
    let kept = entries.len();
    TruncatedEntries {
        lines: kept,
        total,
        dropped: total - kept,
        truncated: true,
        full_output: Some(full_output),
        entries,
    }
}

/// Whether `c` may appear in a temp-file prefix.
pub open spec fn prefix_char(c: char) -> bool {
    ('a' <= c <= 'z') || ('A' <= c <= 'Z') || ('0' <= c <= '9') || c == '-' || c == '_'
}

/// The characters of `s` that may appear in a prefix, in order.
pub open spec fn prefix_chars(s: Seq<char>) -> Seq<char>
    decreases s.len(),
{
    if s.len() == 0 {
        Seq::empty()
    } else if prefix_char(s.last()) {
        prefix_chars(s.drop_last()).push(s.last())
    } else {
        prefix_chars(s.drop_last())
    }
}

/// The temp-file prefix made of `value`: its ASCII letters, digits, `-` and
/// `_`, or `agcli-output` when none is left.
pub open spec fn sanitized(value: Seq<char>) -> Seq<char> {
    if prefix_chars(value).len() == 0 {
        "agcli-output"@
    } else {
        prefix_chars(value)
    }
}

/// Sanitizes a temp-file prefix (see [`sanitized`]).
pub fn sanitize_prefix(value: &str) -> (r: String)
    ensures
        r@ == sanitized(value@),
{
    let cs = crate::text::chars_of(value);
    let mut out: Vec<char> = Vec::new();
    let mut i: usize = 0;
    while i < cs.len()
        invariant
            cs@ == value@,
            i <= cs.len(),
            out@ == prefix_chars(value@.take(i as int)),
        decreases cs.len() - i,
    {
        proof {
            assert(value@.take(i + 1).drop_last() =~= value@.take(i as int));
        }
        let c = cs[i];
        if ('a' <= c && c <= 'z') || ('A' <= c && c <= 'Z') || ('0' <= c && c <= '9') || c == '-'
            || c == '_' {
            out.push(c);
        }
        i = i + 1;
    }
    proof {
        assert(value@.take(i as int) =~= value@);
    }
    if out.len() == 0 {
        owned("agcli-output")
    } else {
        crate::text::string_of(out.as_slice())
    }
}

/// How many distinct file names a truncation tries before giving up.
pub const TEMP_FILE_ATTEMPTS: u32 = 5;

/// The name of the file holding a truncation's full output, for the
/// `attempt`-th try: `{prefix}-{pid}-{nanos}.log`, with `-{attempt}` before
/// `.log` on retries.
pub open spec fn temp_file_name_model(prefix: Seq<char>, pid: nat, nanos: nat, attempt: nat) -> Seq<
    char,
> {
    prefix + seq!['-'] + decimal(pid) + seq!['-'] + decimal(nanos) + (if attempt == 0 {
        Seq::empty()
    } else {
        seq!['-'] + decimal(attempt)
    }) + ".log"@
}

/// The try after name number `attempt` turned out to be taken: the next
/// number, or `None` once [`TEMP_FILE_ATTEMPTS`] names have been tried.
pub fn next_temp_attempt(attempt: u32) -> (r: Option<u32>)
    ensures
        r == if attempt + 1 < TEMP_FILE_ATTEMPTS {
            Some((attempt + 1) as u32)
        } else {
            None::<u32>
        },
{
    if attempt < TEMP_FILE_ATTEMPTS - 1 {
        Some(attempt + 1)
    } else {
        None
    }
}

/// The file name for the `attempt`-th try (see [`temp_file_name_model`]).
pub fn temp_file_name(prefix: &str, pid: u32, nanos: u128, attempt: u32) -> (r: String)
    ensures
        r@ == temp_file_name_model(prefix@, pid as nat, nanos as nat, attempt as nat),
{
    let mut out = owned(prefix);
    push_char(&mut out, '-');
    push_decimal(&mut out, pid as u64);
    push_char(&mut out, '-');
    push_decimal_wide(&mut out, nanos);
    if attempt != 0 {
        push_char(&mut out, '-');
        push_decimal(&mut out, attempt as u64);
    }
    push_str(&mut out, ".log");
    out
}

} // verus!
