//! Parsing argv into an [`Invocation`]: flags, positionals, and `--help`.
use vstd::prelude::*;
use crate::text::{all_digits, chars_eq, chars_of, is_digit, is_digit_exec, join, join_strings, owned, push_char, push_str, str_eq, string_of, views};

verus! {

broadcast use vstd::seq_lib::group_seq_properties;

// ---------------------------------------------------------------------------
// Flag storage: a list of `(name, value)` pairs with distinct names.
// ---------------------------------------------------------------------------

/// The value stored for `k` (the last pair naming it).
pub open spec fn lookup(s: Seq<(String, String)>, k: Seq<char>) -> Option<Seq<char>>
    decreases s.len(),
{
    if s.len() == 0 {
        None
    } else if s.last().0@ == k {
        Some(s.last().1@)
    } else {
        lookup(s.drop_last(), k)
    }
}

/// The flags as a map from name to value.
pub open spec fn flag_map(s: Seq<(String, String)>) -> Map<Seq<char>, Seq<char>> {
    Map::new(|k: Seq<char>| lookup(s, k) is Some, |k: Seq<char>| lookup(s, k)->0)
}

/// No two pairs share a name.
pub open spec fn distinct_keys(s: Seq<(String, String)>) -> bool {
    forall|i: int, j: int| 0 <= i < s.len() && 0 <= j < s.len() && i != j ==> s[i].0@ != s[j].0@
}

pub proof fn lemma_lookup_absent(s: Seq<(String, String)>, k: Seq<char>)
    requires
        forall|i: int| 0 <= i < s.len() ==> s[i].0@ != k,
    ensures
        lookup(s, k) is None,
    decreases s.len(),
{
    if s.len() > 0 {
        lemma_lookup_absent(s.drop_last(), k);
    }
}

pub proof fn lemma_lookup_at(s: Seq<(String, String)>, i: int)
    requires
        distinct_keys(s),
        0 <= i < s.len(),
    ensures
        lookup(s, s[i].0@) == Some(s[i].1@),
    decreases s.len(),
{
    if i != s.len() - 1 {
        lemma_lookup_at(s.drop_last(), i);
    }
}

/// Sets flag `k` to `v`, replacing any earlier value.
pub fn flags_insert(flags: &mut Vec<(String, String)>, k: String, v: String)
    requires
        distinct_keys(old(flags)@),
    ensures
        distinct_keys(final(flags)@),
        flag_map(final(flags)@) == flag_map(old(flags)@).insert(k@, v@),
{
    let ghost old_s = flags@;
    let mut i: usize = 0;
    while i < flags.len()
        invariant
            flags@ == old_s,
            old_s == old(flags)@,
            distinct_keys(old_s),
            i <= flags.len(),
            forall|j: int| 0 <= j < i ==> flags@[j].0@ != k@,
        decreases flags.len() - i,
    {
        if flags[i].0 == k {
            let ghost kv = k@;
            let ghost vv = v@;
            flags.set(i, (k, v));
            proof {
                let s = flags@;
                assert(distinct_keys(s)) by {
                    assert forall|a: int, b: int|
                        0 <= a < s.len() && 0 <= b < s.len() && a != b implies s[a].0@ != s[b].0@ by {
                        if a != i && b != i {
                            assert(s[a] == old_s[a] && s[b] == old_s[b]);
                        } else if a == i {
                            assert(s[b] == old_s[b]);
                            assert(old_s[i as int].0@ == kv);
                        } else {
                            assert(s[a] == old_s[a]);
                            assert(old_s[i as int].0@ == kv);
                        }
                    }
                }
                assert(flag_map(s) =~= flag_map(old_s).insert(kv, vv)) by {
                    assert forall|q: Seq<char>| lookup(s, q) == (if q == kv { Some(vv) } else { lookup(old_s, q) }) by {
                        if q == kv {
                            lemma_lookup_at(s, i as int);
                        } else if exists|j: int| 0 <= j < s.len() && s[j].0@ == q {
                            let j = choose|j: int| 0 <= j < s.len() && s[j].0@ == q;
                            assert(j != i);
                            assert(s[j] == old_s[j]);
                            lemma_lookup_at(s, j);
                            lemma_lookup_at(old_s, j);
                        } else {
                            lemma_lookup_absent(s, q);
                            assert forall|j: int| 0 <= j < old_s.len() implies old_s[j].0@ != q by {
                                if j != i {
                                    assert(s[j] == old_s[j]);
                                }
                            }
                            lemma_lookup_absent(old_s, q);
                        }
                    }
                }
            }
            return;
        }
        i = i + 1;
    }
    let ghost kv = k@;
    let ghost vv = v@;
    flags.push((k, v));
    proof {
        let s = flags@;
        assert(s.drop_last() =~= old_s);
        assert(flag_map(s) =~= flag_map(old_s).insert(kv, vv));
    }
}

/// Reads flag `k`.
pub fn flags_get<'a>(flags: &'a Vec<(String, String)>, k: &str) -> (r: Option<&'a String>)
    ensures
        match r {
            Some(v) => lookup(flags@, k@) == Some(v@),
            None => lookup(flags@, k@) is None,
        },
{
    let mut i = flags.len();
    proof {
        assert(flags@.take(i as int) =~= flags@);
    }
    while i > 0
        invariant
            i <= flags.len(),
            lookup(flags@, k@) == lookup(flags@.take(i as int), k@),
        decreases i,
    {
        proof {
            assert(flags@.take(i as int).drop_last() =~= flags@.take(i - 1));
        }
        if str_eq(flags[i - 1].0.as_str(), k) {
            return Some(&flags[i - 1].1);
        }
        i = i - 1;
    }
    None
}


/// The characters `cs[a..b]` as a new `String`.
pub fn sub_string(cs: &[char], a: usize, b: usize) -> (r: String)
    requires
        a <= b <= cs@.len(),
    ensures
        r@ == cs@.subrange(a as int, b as int),
{
    let piece = vstd::slice::slice_subrange(cs, a, b);
    string_of(piece)
}

// ---------------------------------------------------------------------------
// Token classification
// ---------------------------------------------------------------------------

pub open spec fn true_text() -> Seq<char> {
    seq!['t', 'r', 'u', 'e']
}

pub fn true_string() -> (r: String)
    ensures
        r@ == true_text(),
{
    let cs = ['t', 'r', 'u', 'e'];
    let r = string_of(&cs);
    assert(cs@ =~= true_text());
    r
}

/// Index of the first `c` in `s`.
pub open spec fn pos_of(s: Seq<char>, c: char) -> Option<int>
    decreases s.len(),
{
    if s.len() == 0 {
        None
    } else if s[0] == c {
        Some(0)
    } else {
        match pos_of(s.drop_first(), c) {
            Some(i) => Some(i + 1),
            None => None,
        }
    }
}

pub proof fn lemma_pos_of(s: Seq<char>, c: char)
    ensures
        match pos_of(s, c) {
            Some(i) => 0 <= i < s.len() && s[i] == c && forall|k: int| 0 <= k < i ==> s[k] != c,
            None => forall|k: int| 0 <= k < s.len() ==> s[k] != c,
        },
    decreases s.len(),
{
    if s.len() > 0 {
        lemma_pos_of(s.drop_first(), c);
        if s[0] != c {
            match pos_of(s.drop_first(), c) {
                Some(i) => {
                    assert forall|k: int| 0 <= k < i + 1 implies s[k] != c by {
                        if k > 0 {
                            assert(s[k] == s.drop_first()[k - 1]);
                        }
                    }
                },
                None => {
                    assert forall|k: int| 0 <= k < s.len() implies s[k] != c by {
                        if k > 0 {
                            assert(s[k] == s.drop_first()[k - 1]);
                        }
                    }
                },
            }
        }
    }
}

pub proof fn lemma_pos_of_unique(s: Seq<char>, c: char, i: int)
    requires
        0 <= i < s.len(),
        s[i] == c,
        forall|k: int| 0 <= k < i ==> s[k] != c,
    ensures
        pos_of(s, c) == Some(i),
{
    lemma_pos_of(s, c);
}

pub proof fn lemma_pos_of_none(s: Seq<char>, c: char)
    requires
        forall|k: int| 0 <= k < s.len() ==> s[k] != c,
    ensures
        pos_of(s, c) is None,
{
    lemma_pos_of(s, c);
}

/// Finds the first `c` in `cs`.
pub fn find_char(cs: &[char], c: char) -> (r: Option<usize>)
    ensures
        match r {
            Some(i) => pos_of(cs@, c) == Some(i as int),
            None => pos_of(cs@, c) is None,
        },
{
    let mut i: usize = 0;
    while i < cs.len()
        invariant
            i <= cs.len(),
            forall|k: int| 0 <= k < i ==> cs@[k] != c,
        decreases cs.len() - i,
    {
        if cs[i] == c {
            proof {
                lemma_pos_of_unique(cs@, c, i as int);
            }
            return Some(i);
        }
        i = i + 1;
    }
    proof {
        lemma_pos_of_none(cs@, c);
    }
    None
}

/// `c` folded to ASCII lower case.
pub open spec fn ascii_lower(c: char) -> char {
    if 'A' <= c <= 'Z' {
        ((c as int) + 32) as char
    } else {
        c
    }
}

/// `s` equals the lower-case ASCII word `w` ignoring ASCII case.
pub open spec fn eq_ignore_case(s: Seq<char>, w: Seq<char>) -> bool {
    s.len() == w.len() && forall|i: int| 0 <= i < s.len() ==> ascii_lower(s[i]) == w[i]
}

pub open spec fn word_inf() -> Seq<char> {
    seq!['i', 'n', 'f']
}

pub open spec fn word_infinity() -> Seq<char> {
    seq!['i', 'n', 'f', 'i', 'n', 'i', 't', 'y']
}

pub open spec fn word_nan() -> Seq<char> {
    seq!['n', 'a', 'n']
}

/// Digits with at most one `.`, and at least one digit.
pub open spec fn float_mantissa(m: Seq<char>) -> bool {
    match pos_of(m, '.') {
        None => m.len() >= 1 && all_digits(m),
        Some(i) => m.len() >= 2 && all_digits(m.take(i)) && all_digits(m.skip(i + 1)),
    }
}

/// An exponent after `e`: optional sign, then at least one digit.
pub open spec fn float_exponent(x: Seq<char>) -> bool {
    if x.len() >= 1 && (x[0] == '+' || x[0] == '-') {
        x.len() >= 2 && all_digits(x.skip(1))
    } else {
        x.len() >= 1 && all_digits(x)
    }
}

/// Index of the first `e` or `E`.
pub open spec fn pos_of_e(s: Seq<char>) -> Option<int>
    decreases s.len(),
{
    if s.len() == 0 {
        None
    } else if s[0] == 'e' || s[0] == 'E' {
        Some(0)
    } else {
        match pos_of_e(s.drop_first()) {
            Some(i) => Some(i + 1),
            None => None,
        }
    }
}

/// The unsigned part of a floating-point literal as `f64::from_str` accepts it.
pub open spec fn float_body(r: Seq<char>) -> bool {
    ||| eq_ignore_case(r, word_inf())
    ||| eq_ignore_case(r, word_infinity())
    ||| eq_ignore_case(r, word_nan())
    ||| match pos_of_e(r) {
        None => float_mantissa(r),
        Some(i) => float_mantissa(r.take(i)) && float_exponent(r.skip(i + 1)),
    }
}

/// `-` followed by something `f64::from_str` accepts.
pub open spec fn looks_like_negative_number(s: Seq<char>) -> bool {
    s.len() >= 2 && s[0] == '-' && float_body(s.skip(1))
}

pub fn all_digits_exec(cs: &[char], a: usize, b: usize) -> (r: bool)
    requires
        a <= b <= cs@.len(),
    ensures
        r == all_digits(cs@.subrange(a as int, b as int)),
{
    let mut i = a;
    while i < b
        invariant
            a <= i <= b,
            b <= cs@.len(),
            forall|k: int| a <= k < i ==> is_digit(cs@[k]),
        decreases b - i,
    {
        if !is_digit_exec(cs[i]) {
            assert(cs@.subrange(a as int, b as int)[i - a] == cs@[i as int]);
            return false;
        }
        i = i + 1;
    }
    assert forall|k: int| 0 <= k < b - a implies is_digit(#[trigger] cs@.subrange(a as int, b as int)[k]) by {
        assert(cs@.subrange(a as int, b as int)[k] == cs@[a + k]);
    }
    true
}

fn ascii_lower_exec(c: char) -> (r: char)
    ensures
        r == ascii_lower(c),
{
    if 'A' <= c && c <= 'Z' {
        ((c as u32) + 32) as u8 as char
    } else {
        c
    }
}

fn eq_ignore_case_exec(cs: &[char], a: usize, w: &[char]) -> (r: bool)
    requires
        a <= cs@.len(),
    ensures
        r == eq_ignore_case(cs@.skip(a as int), w@),
{
    if cs.len() - a != w.len() {
        return false;
    }
    let mut i: usize = 0;
    while i < w.len()
        invariant
            cs.len() - a == w.len(),
            a <= cs@.len(),
            i <= w.len(),
            forall|k: int| 0 <= k < i ==> ascii_lower(cs@[a + k]) == w@[k],
        decreases w.len() - i,
    {
        if ascii_lower_exec(cs[a + i]) != w[i] {
            return false;
        }
        i = i + 1;
    }
    true
}

fn float_mantissa_exec(cs: &[char], a: usize, b: usize) -> (r: bool)
    requires
        a <= b <= cs@.len(),
    ensures
        r == float_mantissa(cs@.subrange(a as int, b as int)),
{
    let ghost m = cs@.subrange(a as int, b as int);
    let piece = vstd::slice::slice_subrange(cs, a, b);
    proof {
        lemma_pos_of(piece@, '.');
    }
    match find_char(piece, '.') {
        None => b - a >= 1 && all_digits_exec(cs, a, b),
        Some(i) => {
            let ok = b - a >= 2 && all_digits_exec(cs, a, a + i) && all_digits_exec(cs, a + i + 1, b);
            proof {
                assert(m.take(i as int) =~= cs@.subrange(a as int, a + i));
                assert(m.skip(i + 1) =~= cs@.subrange(a + i + 1, b as int));
            }
            ok
        },
    }
}

fn float_exponent_exec(cs: &[char], a: usize, b: usize) -> (r: bool)
    requires
        a <= b <= cs@.len(),
    ensures
        r == float_exponent(cs@.subrange(a as int, b as int)),
{
    let ghost x = cs@.subrange(a as int, b as int);
    if b - a >= 1 && (cs[a] == '+' || cs[a] == '-') {
        proof {
            assert(x.skip(1) =~= cs@.subrange(a + 1, b as int));
        }
        b - a >= 2 && all_digits_exec(cs, a + 1, b)
    } else {
        b - a >= 1 && all_digits_exec(cs, a, b)
    }
}

fn find_e(cs: &[char], a: usize) -> (r: Option<usize>)
    requires
        a <= cs@.len(),
    ensures
        match r {
            Some(i) => pos_of_e(cs@.skip(a as int)) == Some(i as int) && a + i < cs@.len(),
            None => pos_of_e(cs@.skip(a as int)) is None,
        },
    decreases cs@.len() - a,
{
    if a == cs.len() {
        return None;
    }
    proof {
        assert(cs@.skip(a as int).drop_first() =~= cs@.skip(a + 1));
    }
    if cs[a] == 'e' || cs[a] == 'E' {
        Some(0)
    } else {
        match find_e(cs, a + 1) {
            Some(i) => Some(i + 1),
            None => None,
        }
    }
}

/// Whether `t` reads as a negative number (`-123`, `-3.14`, `-1e3`, `-.5`, `-inf`).
pub fn is_negative_number(t: &[char]) -> (r: bool)
    ensures
        r == looks_like_negative_number(t@),
{
    if t.len() < 2 || t[0] != '-' {
        return false;
    }
    let ghost r = t@.skip(1);
    let inf = ['i', 'n', 'f'];
    let infinity = ['i', 'n', 'f', 'i', 'n', 'i', 't', 'y'];
    let nan = ['n', 'a', 'n'];
    proof {
        assert(inf@ =~= word_inf());
        assert(infinity@ =~= word_infinity());
        assert(nan@ =~= word_nan());
    }
    if eq_ignore_case_exec(t, 1, &inf) || eq_ignore_case_exec(t, 1, &infinity)
        || eq_ignore_case_exec(t, 1, &nan) {
        return true;
    }
    match find_e(t, 1) {
        None => {
            proof {
                assert(t@.subrange(1, t@.len() as int) =~= r);
            }
            float_mantissa_exec(t, 1, t.len())
        },
        Some(i) => {
            proof {
                assert(r.take(i as int) =~= t@.subrange(1, 1 + i));
                assert(r.skip(i + 1) =~= t@.subrange(1 + i + 1, t@.len() as int));
            }
            float_mantissa_exec(t, 1, 1 + i) && float_exponent_exec(t, 1 + i + 1, t.len())
        },
    }
}

// ---------------------------------------------------------------------------
// Program name: the final path component, as `Path::file_name` gives it.
// ---------------------------------------------------------------------------

/// The component that just ended becomes the latest, unless empty or `.`.
pub open spec fn finish_component(cur: Seq<char>, last: Option<Seq<char>>) -> Option<Seq<char>> {
    if cur.len() == 0 || cur == seq!['.'] {
        last
    } else {
        Some(cur)
    }
}

/// Scan state after `s`: the component being read and the latest finished one.
pub open spec fn component_scan(s: Seq<char>) -> (Seq<char>, Option<Seq<char>>)
    decreases s.len(),
{
    if s.len() == 0 {
        (Seq::empty(), None)
    } else {
        let (cur, last) = component_scan(s.drop_last());
        if s.last() == '/' {
            (Seq::empty(), finish_component(cur, last))
        } else {
            (cur.push(s.last()), last)
        }
    }
}

/// The final normal component of the path `s`, or `None` when the path ends
/// in `..` or has no such component.
pub open spec fn file_name(s: Seq<char>) -> Option<Seq<char>> {
    let (cur, last) = component_scan(s);
    match finish_component(cur, last) {
        None => None,
        Some(x) => if x == seq!['.', '.'] {
            None
        } else {
            Some(x)
        },
    }
}

/// The program name shown in envelopes: the file name of argv[0], or argv[0]
/// unchanged when it has none.
pub open spec fn program_name(s: Seq<char>) -> Seq<char> {
    match file_name(s) {
        Some(x) => x,
        None => s,
    }
}

fn is_dot(cs: &Vec<char>) -> (r: bool)
    ensures
        r == (cs@ == seq!['.']),
{
    let r = cs.len() == 1 && cs[0] == '.';
    proof {
        if cs.len() == 1 && cs[0] == '.' {
            assert(cs@ =~= seq!['.']);
        }
    }
    r
}

/// Computes [`program_name`].
pub fn program_name_exec(raw: &str) -> (r: String)
    ensures
        r@ == program_name(raw@),
{
    let cs = chars_of(raw);
    let mut cur: Vec<char> = Vec::new();
    let mut last: Option<Vec<char>> = None;
    let mut i: usize = 0;
    while i < cs.len()
        invariant
            i <= cs.len(),
            cs@ == raw@,
            component_scan(cs@.take(i as int)) == (cur@, match last {
                Some(l) => Some(l@),
                None => None::<Seq<char>>,
            }),
        decreases cs.len() - i,
    {
        proof {
            assert(cs@.take(i + 1).drop_last() =~= cs@.take(i as int));
        }
        let c = cs[i];
        if c == '/' {
            if !(cur.len() == 0 || is_dot(&cur)) {
                last = Some(cur);
            }
            cur = Vec::new();
        } else {
            cur.push(c);
        }
        i = i + 1;
    }
    proof {
        assert(cs@.take(cs.len() as int) =~= cs@);
    }
    if !(cur.len() == 0 || is_dot(&cur)) {
        last = Some(cur);
    }
    match last {
        None => owned(raw),
        Some(x) => {
            if x.len() == 2 && x[0] == '.' && x[1] == '.' {
                proof {
                    assert(x@ =~= seq!['.', '.']);
                }
                owned(raw)
            } else {
                proof {
                    if x@ == seq!['.', '.'] {
                        assert(x@.len() == 2 && x@[0] == '.' && x@[1] == '.');
                    }
                }
                string_of(x.as_slice())
            }
        },
    }
}


// ---------------------------------------------------------------------------
// The parse itself
// ---------------------------------------------------------------------------

/// Parser state between tokens.
pub ghost struct ParseState {
    pub flags: Map<Seq<char>, Seq<char>>,
    pub positionals: Seq<Seq<char>>,
    pub help: bool,
    pub positional_only: bool,
    /// A bare `--key` whose value may be the next plain token.
    pub pending: Option<Seq<char>>,
}

pub open spec fn initial_state() -> ParseState {
    ParseState {
        flags: Map::empty(),
        positionals: Seq::empty(),
        help: false,
        positional_only: false,
        pending: None,
    }
}

/// A pending bare flag becomes boolean.
pub open spec fn flush(st: ParseState) -> ParseState {
    match st.pending {
        Some(k) => ParseState { flags: st.flags.insert(k, true_text()), pending: None, ..st },
        None => st,
    }
}

pub open spec fn with_flag(st: ParseState, k: Seq<char>, v: Seq<char>) -> ParseState {
    ParseState { flags: st.flags.insert(k, v), ..st }
}

/// A plain token: the value of a pending flag, or else a positional.
pub open spec fn take_value(st: ParseState, t: Seq<char>) -> ParseState {
    match st.pending {
        Some(k) => ParseState { flags: st.flags.insert(k, t), pending: None, ..st },
        None => ParseState { positionals: st.positionals.push(t), ..st },
    }
}

/// Bundled short flags `-abc`: each character is a boolean flag.
pub open spec fn bundle(st: ParseState, short: Seq<char>) -> ParseState
    decreases short.len(),
{
    if short.len() == 0 {
        st
    } else {
        with_flag(bundle(st, short.drop_last()), seq![short.last()], true_text())
    }
}

pub open spec fn help_long() -> Seq<char> {
    seq!['-', '-', 'h', 'e', 'l', 'p']
}

pub open spec fn is_long_flag(t: Seq<char>) -> bool {
    t.len() >= 2 && t[0] == '-' && t[1] == '-'
}

/// One token. `Err(t)` names a token with invalid flag syntax.
pub open spec fn step(st: ParseState, t: Seq<char>, bools: Seq<Seq<char>>) -> Result<ParseState, Seq<char>> {
    if st.positional_only {
        let s1 = flush(st);
        Ok(ParseState { positionals: s1.positionals.push(t), ..s1 })
    } else if t == seq!['-', '-'] {
        Ok(ParseState { positional_only: true, ..flush(st) })
    } else if t == help_long() || t == seq!['-', 'h'] {
        Ok(ParseState { help: true, ..flush(st) })
    } else if is_long_flag(t) {
        let flag = t.skip(2);
        let s1 = flush(st);
        match pos_of(flag, '=') {
            Some(i) => if i == 0 {
                Err(t)
            } else {
                Ok(with_flag(s1, flag.take(i), flag.skip(i + 1)))
            },
            None => if bools.contains(flag) {
                Ok(with_flag(s1, flag, true_text()))
            } else {
                Ok(ParseState { pending: Some(flag), ..s1 })
            },
        }
    } else if looks_like_negative_number(t) {
        Ok(take_value(st, t))
    } else if t.len() > 1 && t[0] == '-' {
        let s1 = flush(st);
        let short = t.skip(1);
        if pos_of(short, '=') == Some(1int) {
            Ok(with_flag(s1, short.take(1), short.skip(2)))
        } else if short.len() == 1 {
            if bools.contains(short) {
                Ok(with_flag(s1, short, true_text()))
            } else {
                Ok(ParseState { pending: Some(short), ..s1 })
            }
        } else {
            Ok(bundle(s1, short))
        }
    } else {
        Ok(take_value(st, t))
    }
}

/// The state after the tokens `ts`, or the first token with invalid syntax.
pub open spec fn run_tokens(ts: Seq<Seq<char>>, bools: Seq<Seq<char>>) -> Result<ParseState, Seq<char>>
    decreases ts.len(),
{
    if ts.len() == 0 {
        Ok(initial_state())
    } else {
        match run_tokens(ts.drop_last(), bools) {
            Ok(st) => step(st, ts.last(), bools),
            Err(e) => Err(e),
        }
    }
}

/// Once a prefix fails, the whole token list fails with the same token.
pub proof fn lemma_run_tokens_err(ts: Seq<Seq<char>>, k: int, bools: Seq<Seq<char>>)
    requires
        0 <= k <= ts.len(),
        run_tokens(ts.take(k), bools) is Err,
    ensures
        run_tokens(ts, bools) == run_tokens(ts.take(k), bools),
    decreases ts.len() - k,
{
    if k < ts.len() {
        assert(ts.take(k + 1).drop_last() =~= ts.take(k));
        lemma_run_tokens_err(ts, k + 1, bools);
    } else {
        assert(ts.take(k) =~= ts);
    }
}

/// What a parsed invocation holds.
pub ghost struct InvocationView {
    pub program: Seq<char>,
    pub command_line: Seq<char>,
    pub raw_args: Seq<Seq<char>>,
    pub flags: Map<Seq<char>, Seq<char>>,
    pub positionals: Seq<Seq<char>>,
    pub help_requested: bool,
}

pub ghost enum ParseErrorView {
    EmptyArgv,
    InvalidFlag(Seq<char>),
}

/// The command line echoed in envelopes: the program name and the tokens,
/// space separated.
pub open spec fn command_line_of(program: Seq<char>, tokens: Seq<Seq<char>>) -> Seq<char> {
    if tokens.len() == 0 {
        program
    } else {
        program + seq![' '] + join(tokens, seq![' '])
    }
}

/// The meaning of parsing `args` where the flags in `bools` are booleans.
pub open spec fn parse_spec(args: Seq<Seq<char>>, bools: Seq<Seq<char>>) -> Result<InvocationView, ParseErrorView> {
    if args.len() == 0 {
        Err(ParseErrorView::EmptyArgv)
    } else {
        let program = program_name(args[0]);
        let tokens = args.skip(1);
        match run_tokens(tokens, bools) {
            Err(t) => Err(ParseErrorView::InvalidFlag(t)),
            Ok(st) => {
                let f = flush(st);
                Ok(InvocationView {
                    program,
                    command_line: command_line_of(program, tokens),
                    raw_args: tokens,
                    flags: f.flags,
                    positionals: f.positionals,
                    help_requested: f.help,
                })
            },
        }
    }
}

/// Invocation parser failure.
#[derive(Clone, Debug, PartialEq, Eq)]
pub enum ParseInvocationError {
    EmptyArgv,
    InvalidFlag(String),
}

impl View for ParseInvocationError {
    type V = ParseErrorView;

    open spec fn view(&self) -> ParseErrorView {
        match self {
            ParseInvocationError::EmptyArgv => ParseErrorView::EmptyArgv,
            ParseInvocationError::InvalidFlag(s) => ParseErrorView::InvalidFlag(s@),
        }
    }
}

impl ParseInvocationError {
    /// The message an envelope reports for this error.
    pub fn message(&self) -> (r: String)
        ensures
            r@ == parse_error_message(self@),
    {
        match self {
            ParseInvocationError::EmptyArgv => {
                let r = owned("argv is empty");
                proof {
                    reveal_strlit("argv is empty");
                }
                r
            },
            ParseInvocationError::InvalidFlag(flag) => {
                let mut r = owned("invalid flag syntax: ");
                push_str(&mut r, flag.as_str());
                r
            },
        }
    }
}

pub open spec fn parse_error_message(e: ParseErrorView) -> Seq<char> {
    match e {
        ParseErrorView::EmptyArgv => "argv is empty"@,
        ParseErrorView::InvalidFlag(f) => "invalid flag syntax: "@ + f,
    }
}

/// Parsed command-line invocation.
#[derive(Debug, PartialEq, Eq)]
pub struct Invocation {
    program: String,
    command_line: String,
    raw_args: Vec<String>,
    flags: Vec<(String, String)>,
    positionals: Vec<String>,
    help_requested: bool,
}

impl View for Invocation {
    type V = InvocationView;

    closed spec fn view(&self) -> InvocationView {
        InvocationView {
            program: self.program@,
            command_line: self.command_line@,
            raw_args: views(self.raw_args@),
            flags: flag_map(self.flags@),
            positionals: views(self.positionals@),
            help_requested: self.help_requested,
        }
    }
}

impl Invocation {
    /// No flag name occurs twice.
    #[verifier::type_invariant]
    spec fn flags_distinct(self) -> bool {
        distinct_keys(self.flags@)
    }

    pub fn program(&self) -> (r: &str)
        ensures
            r@ == self@.program,
    {
        self.program.as_str()
    }

    pub fn command_line(&self) -> (r: &str)
        ensures
            r@ == self@.command_line,
    {
        self.command_line.as_str()
    }

    /// Consume the invocation and return the owned command_line string.
    pub fn into_command_line(self) -> (r: String)
        ensures
            r@ == self@.command_line,
    {
        self.command_line
    }

    pub fn raw_args(&self) -> (r: &[String])
        ensures
            views(r@) == self@.raw_args,
    {
        self.raw_args.as_slice()
    }

    /// The flags as `(name, value)` pairs; no name occurs twice.
    pub fn flags(&self) -> (r: &Vec<(String, String)>)
        ensures
            flag_map(r@) == self@.flags,
            distinct_keys(r@),
    {
        proof {
            use_type_invariant(self);
        }
        &self.flags
    }

    pub fn flag(&self, name: &str) -> (r: Option<&str>)
        ensures
            match r {
                Some(v) => self@.flags.contains_key(name@) && self@.flags[name@] == v@,
                None => !self@.flags.contains_key(name@),
            },
    {
        match flags_get(&self.flags, name) {
            Some(v) => Some(v.as_str()),
            None => None,
        }
    }

    pub fn positionals(&self) -> (r: &[String])
        ensures
            views(r@) == self@.positionals,
    {
        self.positionals.as_slice()
    }

    pub fn help_requested(&self) -> (r: bool)
        ensures
            r == self@.help_requested,
    {
        self.help_requested
    }
}

impl Clone for Invocation {
    fn clone(&self) -> (r: Self)
        ensures
            r@ == self@,
    {
        proof {
            use_type_invariant(self);
        }
        let mut flags: Vec<(String, String)> = Vec::new();
        let mut i: usize = 0;
        while i < self.flags.len()
            invariant
                i <= self.flags@.len(),
                flags@.len() == i,
                forall|q: int| 0 <= q < i ==> #[trigger] flags@[q] == self.flags@[q],
            decreases self.flags.len() - i,
        {
            flags.push((self.flags[i].0.clone(), self.flags[i].1.clone()));
            i = i + 1;
        }
        assert(flags@ =~= self.flags@);
        let mut raw_args: Vec<String> = Vec::new();
        let mut j: usize = 0;
        while j < self.raw_args.len()
            invariant
                j <= self.raw_args@.len(),
                raw_args@.len() == j,
                forall|q: int| 0 <= q < j ==> #[trigger] raw_args@[q] == self.raw_args@[q],
            decreases self.raw_args.len() - j,
        {
            raw_args.push(self.raw_args[j].clone());
            j = j + 1;
        }
        assert(raw_args@ =~= self.raw_args@);
        let mut positionals: Vec<String> = Vec::new();
        let mut k: usize = 0;
        while k < self.positionals.len()
            invariant
                k <= self.positionals@.len(),
                positionals@.len() == k,
                forall|q: int| 0 <= q < k ==> #[trigger] positionals@[q] == self.positionals@[q],
            decreases self.positionals.len() - k,
        {
            positionals.push(self.positionals[k].clone());
            k = k + 1;
        }
        assert(positionals@ =~= self.positionals@);
        Invocation {
            program: self.program.clone(),
            command_line: self.command_line.clone(),
            raw_args,
            flags,
            positionals,
            help_requested: self.help_requested,
        }
    }
}

/// Exec mirror of [`ParseState`].
struct Parser {
    flags: Vec<(String, String)>,
    positionals: Vec<String>,
    help: bool,
    positional_only: bool,
    pending: Option<String>,
}

impl Parser {
    spec fn state(&self) -> ParseState {
        ParseState {
            flags: flag_map(self.flags@),
            positionals: views(self.positionals@),
            help: self.help,
            positional_only: self.positional_only,
            pending: match self.pending {
                Some(p) => Some(p@),
                None => None,
            },
        }
    }

    spec fn wf(&self) -> bool {
        distinct_keys(self.flags@)
    }

    fn set_flag(&mut self, k: String, v: String)
        requires
            old(self).wf(),
        ensures
            final(self).wf(),
            final(self).state() == with_flag(old(self).state(), k@, v@),
    {
        flags_insert(&mut self.flags, k, v);
        proof {
            assert(self.state() =~= with_flag(old(self).state(), k@, v@));
        }
    }

    fn push_positional(&mut self, t: String)
        ensures
            final(self).flags == old(self).flags,
            final(self).state() == (ParseState { positionals: old(self).state().positionals.push(t@), ..old(self).state() }),
    {
        self.positionals.push(t);
        proof {
            assert(views(self.positionals@) =~= views(old(self).positionals@).push(t@));
        }
    }

    fn flush(&mut self)
        requires
            old(self).wf(),
        ensures
            final(self).wf(),
            final(self).state() == flush(old(self).state()),
    {
        match self.pending.take() {
            Some(k) => {
                let v = true_string();
                flags_insert(&mut self.flags, k, v);
                proof {
                    assert(self.state() =~= flush(old(self).state()));
                }
            },
            None => {
                proof {
                    assert(self.state() =~= flush(old(self).state()));
                }
            },
        }
    }

    fn take_value(&mut self, t: String)
        requires
            old(self).wf(),
        ensures
            final(self).wf(),
            final(self).state() == take_value(old(self).state(), t@),
    {
        match self.pending.take() {
            Some(k) => {
                flags_insert(&mut self.flags, k, t);
                proof {
                    assert(self.state() =~= take_value(old(self).state(), t@));
                }
            },
            None => {
                self.positionals.push(t);
                proof {
                    assert(views(self.positionals@) =~= views(old(self).positionals@).push(t@));
                    assert(self.state() =~= take_value(old(self).state(), t@));
                }
            },
        }
    }

    fn bundle(&mut self, t: &Vec<char>)
        requires
            old(self).wf(),
            t@.len() >= 1,
        ensures
            final(self).wf(),
            final(self).state() == bundle(old(self).state(), t@.skip(1)),
    {
        let ghost start = self.state();
        let mut i: usize = 1;
        while i < t.len()
            invariant
                1 <= i <= t@.len(),
                self.wf(),
                self.state() == bundle(start, t@.subrange(1, i as int)),
            decreases t.len() - i,
        {
            let key = sub_string(t.as_slice(), i, i + 1);
            let v = true_string();
            self.set_flag(key, v);
            proof {
                let sh = t@.subrange(1, i + 1);
                assert(sh.drop_last() =~= t@.subrange(1, i as int));
                assert(key@ =~= seq![sh.last()]);
            }
            i = i + 1;
        }
        proof {
            assert(t@.subrange(1, t@.len() as int) =~= t@.skip(1));
        }
    }

    fn step(&mut self, tok: &str, bools: &[String]) -> (r: Result<(), String>)
        requires
            old(self).wf(),
        ensures
            final(self).wf(),
            match r {
                Ok(()) => step(old(self).state(), tok@, views(bools@)) == Ok::<ParseState, Seq<char>>(final(self).state()),
                Err(e) => step(old(self).state(), tok@, views(bools@)) == Err::<ParseState, Seq<char>>(e@),
            },
    {
        let ghost st = self.state();
        let ghost bv = views(bools@);
        let t = chars_of(tok);
        let ghost tv = t@;
        if self.positional_only {
            self.flush();
            self.push_positional(owned(tok));
            return Ok(());
        }
        let dd = ['-', '-'];
        let hl = ['-', '-', 'h', 'e', 'l', 'p'];
        let hs = ['-', 'h'];
        proof {
            assert(dd@ =~= seq!['-', '-']);
            assert(hl@ =~= help_long());
            assert(hs@ =~= seq!['-', 'h']);
        }
        if chars_eq(t.as_slice(), &dd) {
            self.flush();
            self.positional_only = true;
            proof {
                assert(self.state() =~= (ParseState { positional_only: true, ..flush(st) }));
            }
            return Ok(());
        }
        if chars_eq(t.as_slice(), &hl) || chars_eq(t.as_slice(), &hs) {
            self.flush();
            self.help = true;
            proof {
                assert(self.state() =~= (ParseState { help: true, ..flush(st) }));
            }
            return Ok(());
        }
        if t.len() >= 2 && t[0] == '-' && t[1] == '-' {
            let flag_chars = vstd::slice::slice_subrange(t.as_slice(), 2, t.len());
            let ghost flag = tv.skip(2);
            assert(flag_chars@ =~= flag);
            self.flush();
            proof {
                lemma_pos_of(flag, '=');
            }
            match find_char(flag_chars, '=') {
                Some(i) => {
                    if i == 0 {
                        return Err(owned(tok));
                    }
                    let key = sub_string(t.as_slice(), 2, 2 + i);
                    let value = sub_string(t.as_slice(), 2 + i + 1, t.len());
                    proof {
                        assert(key@ =~= flag.take(i as int));
                        assert(value@ =~= flag.skip(i + 1));
                    }
                    self.set_flag(key, value);
                    return Ok(());
                },
                None => {
                    let name = string_of(flag_chars);
                    if contains_name(bools, &name) {
                        let v = true_string();
                        self.set_flag(name, v);
                    } else {
                        self.pending = Some(name);
                        proof {
                            assert(self.state() =~= (ParseState { pending: Some(flag), ..flush(st) }));
                        }
                    }
                    return Ok(());
                },
            }
        }
        if is_negative_number(t.as_slice()) {
            self.take_value(owned(tok));
            return Ok(());
        }
        if t.len() > 1 && t[0] == '-' {
            self.flush();
            let short_chars = vstd::slice::slice_subrange(t.as_slice(), 1, t.len());
            let ghost short = tv.skip(1);
            assert(short_chars@ =~= short);
            proof {
                lemma_pos_of(short, '=');
            }
            let eq_at = find_char(short_chars, '=');
            if eq_at == Some(1usize) {
                let key = sub_string(t.as_slice(), 1, 2);
                let value = sub_string(t.as_slice(), 3, t.len());
                proof {
                    assert(key@ =~= short.take(1));
                    assert(value@ =~= short.skip(2));
                }
                self.set_flag(key, value);
                return Ok(());
            }
            proof {
                assert(pos_of(short, '=') != Some(1int));
            }
            if t.len() == 2 {
                let name = string_of(short_chars);
                if contains_name(bools, &name) {
                    let v = true_string();
                    self.set_flag(name, v);
                } else {
                    self.pending = Some(name);
                    proof {
                        assert(self.state() =~= (ParseState { pending: Some(short), ..flush(st) }));
                    }
                }
                return Ok(());
            }
            self.bundle(&t);
            return Ok(());
        }
        self.take_value(owned(tok));
        Ok(())
    }
}

/// Whether `name` is one of `names`.
pub fn contains_name(names: &[String], name: &String) -> (r: bool)
    ensures
        r == views(names@).contains(name@),
{
    let mut i: usize = 0;
    while i < names.len()
        invariant
            i <= names.len(),
            forall|k: int| 0 <= k < i ==> names@[k]@ != name@,
        decreases names.len() - i,
    {
        if names[i] == *name {
            assert(views(names@)[i as int] == name@);
            return true;
        }
        i = i + 1;
    }
    proof {
        if views(names@).contains(name@) {
            let k = choose|k: int| 0 <= k < views(names@).len() && views(names@)[k] == name@;
            assert(names@[k]@ == name@);
        }
    }
    false
}

/// Parse argv into an `Invocation` without any boolean-flag schema.
///
/// A bare long flag (`--key`) followed by a non-flag token consumes that
/// token as its value (`--key value` is `--key=value`).
pub fn parse_invocation(args: &[&str]) -> (r: Result<Invocation, ParseInvocationError>)
    ensures
        match r {
            Ok(inv) => parse_spec(args@.map_values(|s: &str| s@), Seq::empty()) == Ok::<InvocationView, ParseErrorView>(inv@),
            Err(e) => parse_spec(args@.map_values(|s: &str| s@), Seq::empty()) == Err::<InvocationView, ParseErrorView>(e@),
        },
{
    let none: Vec<String> = Vec::new();
    proof {
        assert(views(none@) =~= Seq::<Seq<char>>::empty());
    }
    parse_invocation_with_bool_flags(args, none.as_slice())
}

/// Parse argv into an `Invocation`, treating the flags named in `bool_flags`
/// as pure booleans that never consume the next token.
pub fn parse_invocation_with_bool_flags(args: &[&str], bool_flags: &[String]) -> (r: Result<Invocation, ParseInvocationError>)
    ensures
        match r {
            Ok(inv) => parse_spec(args@.map_values(|s: &str| s@), views(bool_flags@)) == Ok::<InvocationView, ParseErrorView>(inv@),
            Err(e) => parse_spec(args@.map_values(|s: &str| s@), views(bool_flags@)) == Err::<InvocationView, ParseErrorView>(e@),
        },
{
    let ghost av = args@.map_values(|s: &str| s@);
    let ghost bv = views(bool_flags@);
    if args.len() == 0 {
        return Err(ParseInvocationError::EmptyArgv);
    }
    let program = program_name_exec(args[0]);
    let ghost tokens = av.skip(1);
    let mut raw_args: Vec<String> = Vec::new();
    let mut p = Parser {
        flags: Vec::new(),
        positionals: Vec::new(),
        help: false,
        positional_only: false,
        pending: None,
    };
    proof {
        assert(flag_map(p.flags@) =~= Map::<Seq<char>, Seq<char>>::empty());
        assert(views(p.positionals@) =~= Seq::<Seq<char>>::empty());
        assert(p.state() =~= initial_state());
        assert(tokens.take(0) =~= Seq::<Seq<char>>::empty());
    }
    let mut i: usize = 1;
    while i < args.len()
        invariant
            1 <= i <= args.len(),
            av == args@.map_values(|s: &str| s@),
            tokens == av.skip(1),
            bv == views(bool_flags@),
            p.wf(),
            views(raw_args@) == tokens.take(i - 1),
            run_tokens(tokens.take(i - 1), bv) == Ok::<ParseState, Seq<char>>(p.state()),
        decreases args.len() - i,
    {
        let ghost before = tokens.take(i - 1);
        let r = p.step(args[i], bool_flags);
        proof {
            assert(tokens.take(i as int).drop_last() =~= before);
            assert(tokens.take(i as int).last() == args@[i as int]@);
        }
        match r {
            Err(t) => {
                proof {
                    lemma_run_tokens_err(tokens, i as int, bv);
                }
                return Err(ParseInvocationError::InvalidFlag(t));
            },
            Ok(()) => {},
        }
        raw_args.push(owned(args[i]));
        proof {
            assert(views(raw_args@) =~= tokens.take(i as int));
        }
        i = i + 1;
    }
    proof {
        assert(tokens.take(args.len() - 1) =~= tokens);
    }
    p.flush();
    let mut command_line = String::new();
    push_str(&mut command_line, program.as_str());
    if raw_args.len() > 0 {
        push_char(&mut command_line, ' ');
        let rest = join_strings(raw_args.as_slice(), " ");
        push_str(&mut command_line, rest.as_str());
    }
    proof {
        reveal_strlit(" ");
        assert(" "@ =~= seq![' ']);
        if raw_args.len() == 0 {
            assert(command_line@ =~= program@);
        } else {
            assert(command_line@ =~= program@ + seq![' '] + join(tokens, seq![' ']));
        }
    }
    let Parser { flags, positionals, help, positional_only: _, pending: _ } = p;
    Ok(Invocation {
        program,
        command_line,
        raw_args,
        flags,
        positionals,
        help_requested: help,
    })
}

proof fn lemma_digits_have_no(s: Seq<char>, c: char)
    requires
        all_digits(s),
        !is_digit(c),
    ensures
        pos_of(s, c) is None,
    decreases s.len(),
{
    if s.len() > 0 {
        assert(is_digit(s[0]));
        assert forall|i: int| 0 <= i < s.drop_first().len() implies is_digit(
            #[trigger] s.drop_first()[i],
        ) by {
            assert(s.drop_first()[i] == s[i + 1]);
        }
        lemma_digits_have_no(s.drop_first(), c);
    }
}

proof fn lemma_digits_have_no_e(s: Seq<char>)
    requires
        all_digits(s),
    ensures
        pos_of_e(s) is None,
    decreases s.len(),
{
    if s.len() > 0 {
        assert(is_digit(s[0]));
        assert forall|i: int| 0 <= i < s.drop_first().len() implies is_digit(
            #[trigger] s.drop_first()[i],
        ) by {
            assert(s.drop_first()[i] == s[i + 1]);
        }
        lemma_digits_have_no_e(s.drop_first());
    }
}

proof fn lemma_pos_of_e_range(s: Seq<char>)
    ensures
        match pos_of_e(s) {
            Some(i) => 0 <= i < s.len() && (s[i] == 'e' || s[i] == 'E') && forall|k: int|
                0 <= k < i ==> s[k] != 'e' && s[k] != 'E',
            None => true,
        },
    decreases s.len(),
{
    if s.len() > 0 {
        lemma_pos_of_e_range(s.drop_first());
        if !(s[0] == 'e' || s[0] == 'E') {
            if let Some(i) = pos_of_e(s.drop_first()) {
                assert forall|k: int| 0 <= k < i + 1 implies s[k] != 'e' && s[k] != 'E' by {
                    if k > 0 {
                        assert(s[k] == s.drop_first()[k - 1]);
                    }
                }
            }
        }
    }
}

/// A float mantissa starts with a digit or a dot.
proof fn lemma_mantissa_head(m: Seq<char>)
    requires
        float_mantissa(m),
    ensures
        m.len() >= 1 && (is_digit(m[0]) || m[0] == '.'),
{
    lemma_pos_of(m, '.');
    match pos_of(m, '.') {
        Some(i) => {
            if i > 0 {
                assert(m.take(i)[0] == m[0]);
            }
        },
        None => {},
    }
}

/// What follows `-` in a negative number starts with a digit, a dot, or a
/// letter of `inf`/`nan`: never `-` and never `h`.
proof fn lemma_float_body_head(r: Seq<char>)
    requires
        float_body(r),
    ensures
        r.len() >= 1,
        r[0] != '-',
        r[0] != 'h',
{
    if eq_ignore_case(r, word_inf()) || eq_ignore_case(r, word_infinity()) || eq_ignore_case(
        r,
        word_nan(),
    ) {
        assert(ascii_lower(r[0]) == 'i' || ascii_lower(r[0]) == 'n');
    } else {
        lemma_pos_of_e_range(r);
        match pos_of_e(r) {
            Some(i) => {
                lemma_mantissa_head(r.take(i));
                assert(r.take(i)[0] == r[0]);
            },
            None => {
                lemma_mantissa_head(r);
            },
        }
    }
}

/// `-` followed by one or more digits reads as a negative number.
pub proof fn lemma_minus_digits_is_negative_number(t: Seq<char>)
    requires
        t.len() >= 2,
        t[0] == '-',
        all_digits(t.skip(1)),
    ensures
        looks_like_negative_number(t),
{
    lemma_digits_have_no(t.skip(1), '.');
    lemma_digits_have_no_e(t.skip(1));
}

/// A bare long flag that is not boolean waits for its value.
proof fn lemma_bare_long_flag_pends(st: ParseState, f: Seq<char>, bools: Seq<Seq<char>>)
    requires
        !st.positional_only,
        f.len() > 0,
        f != "help"@,
        !f.contains('='),
        !bools.contains(f),
    ensures
        step(st, seq!['-', '-'] + f, bools) == Ok::<ParseState, Seq<char>>(
            ParseState { pending: Some(f), ..flush(st) },
        ),
{
    let t = seq!['-', '-'] + f;
    assert(t.skip(2) =~= f);
    assert(t != seq!['-', '-']);
    assert(t != help_long()) by {
        reveal_strlit("help");
        if t == help_long() {
            assert(t.skip(2) =~= "help"@);
        }
    }
    assert(t != seq!['-', 'h']) by {
        if t == seq!['-', 'h'] {
            assert(t[1] == '-');
        }
    }
    lemma_pos_of(f, '=');
    if pos_of(f, '=') is Some {
        let i = pos_of(f, '=')->0;
        assert(f.contains('=')) by {
            assert(f[i] == '=');
        }
    }
}

/// A negative number after a bare flag is that flag's value: with `--k`
/// pending, a token such as `-5`, `-0.5` or `-1e3` sets `k` to that token,
/// ends the wait, and adds no positional.
pub proof fn law_negative_number_is_a_flag_value(
    st: ParseState,
    k: Seq<char>,
    t: Seq<char>,
    bools: Seq<Seq<char>>,
)
    requires
        !st.positional_only,
        st.pending == Some(k),
        looks_like_negative_number(t),
    ensures
        step(st, t, bools) is Ok,
        step(st, t, bools)->Ok_0.flags == st.flags.insert(k, t),
        step(st, t, bools)->Ok_0.flags[k] == t,
        step(st, t, bools)->Ok_0.pending is None,
        step(st, t, bools)->Ok_0.positionals == st.positionals,
        step(st, t, bools)->Ok_0.help == st.help,
{
    let r = t.skip(1);
    lemma_float_body_head(r);
    assert(r[0] == t[1]);
    assert(t != seq!['-', '-'] && t != help_long() && !is_long_flag(t));
    assert(t != seq!['-', 'h']);
}

/// With no bare flag waiting, a negative number such as `-5` is a
/// positional, not a short flag: it is appended to the positionals and the
/// flags stay as they were.
pub proof fn law_negative_number_alone_is_positional(
    st: ParseState,
    t: Seq<char>,
    bools: Seq<Seq<char>>,
)
    requires
        !st.positional_only,
        st.pending is None,
        looks_like_negative_number(t),
    ensures
        step(st, t, bools) is Ok,
        step(st, t, bools)->Ok_0.positionals == st.positionals.push(t),
        step(st, t, bools)->Ok_0.flags == st.flags,
        step(st, t, bools)->Ok_0.pending is None,
        step(st, t, bools)->Ok_0.help == st.help,
{
    let r = t.skip(1);
    lemma_float_body_head(r);
    assert(r[0] == t[1]);
    assert(t != seq!['-', '-'] && t != help_long() && !is_long_flag(t));
    assert(t != seq!['-', 'h']);
}

/// In the full parse, `--k -5` gives `k` the value `-5` when `k` is not a
/// boolean flag: the number is no positional.
pub proof fn law_bare_flag_takes_negative_number(
    st: ParseState,
    k: Seq<char>,
    t: Seq<char>,
    bools: Seq<Seq<char>>,
)
    requires
        !st.positional_only,
        st.pending is None,
        k.len() > 0,
        k != "help"@,
        !k.contains('='),
        !bools.contains(k),
        t.len() >= 2,
        t[0] == '-',
        all_digits(t.skip(1)),
    ensures
        ({
            let r1 = step(st, seq!['-', '-'] + k, bools);
            let r2 = step(r1->Ok_0, t, bools);
            &&& r1 is Ok
            &&& r2 is Ok
            &&& r2->Ok_0.flags == st.flags.insert(k, t)
            &&& r2->Ok_0.positionals == st.positionals
            &&& r2->Ok_0.pending is None
        }),
{
    lemma_bare_long_flag_pends(st, k, bools);
    lemma_minus_digits_is_negative_number(t);
    let s1 = step(st, seq!['-', '-'] + k, bools)->Ok_0;
    law_negative_number_is_a_flag_value(s1, k, t, bools);
}

/// A flag named in the boolean list never takes the next token as its
/// value: `--flag path` records the flag as `true` and keeps `path` as a
/// positional.
pub proof fn law_bool_flag_never_takes_value(
    st: ParseState,
    f: Seq<char>,
    x: Seq<char>,
    bools: Seq<Seq<char>>,
)
    requires
        !st.positional_only,
        f.len() > 0,
        f != "help"@,
        !f.contains('='),
        bools.contains(f),
        x.len() > 0,
        x[0] != '-',
    ensures
        ({
            let r1 = step(st, seq!['-', '-'] + f, bools);
            let s1 = r1->Ok_0;
            let r2 = step(s1, x, bools);
            &&& r1 is Ok
            &&& s1.flags.contains_key(f) && s1.flags[f] == true_text()
            &&& s1.pending is None
            &&& r2 is Ok
            &&& r2->Ok_0.positionals == s1.positionals.push(x)
            &&& r2->Ok_0.flags == s1.flags
        }),
{
    let t = seq!['-', '-'] + f;
    assert(t.skip(2) =~= f);
    assert(t != seq!['-', '-']);
    assert(t != help_long()) by {
        reveal_strlit("help");
        if t == help_long() {
            assert(t.skip(2) =~= "help"@);
        }
    }
    assert(t != seq!['-', 'h']) by {
        if t == seq!['-', 'h'] {
            assert(t[1] == '-');
        }
    }
    lemma_pos_of(f, '=');
    if pos_of(f, '=') is Some {
        let i = pos_of(f, '=')->0;
        assert(f.contains('=')) by {
            assert(f[i] == '=');
        }
    }
    assert(x != help_long() && x != seq!['-', 'h'] && x != seq!['-', '-']) by {
        if x == help_long() {
            assert(x[0] == '-');
        }
    }
}

/// A bare flag not named in the boolean list takes the next plain token as
/// its value: `--title value` is `--title=value`.
pub proof fn law_bare_flag_takes_next_value(
    st: ParseState,
    f: Seq<char>,
    x: Seq<char>,
    bools: Seq<Seq<char>>,
)
    requires
        !st.positional_only,
        f.len() > 0,
        f != "help"@,
        !f.contains('='),
        !bools.contains(f),
        x.len() > 0,
        x[0] != '-',
    ensures
        ({
            let r1 = step(st, seq!['-', '-'] + f, bools);
            let s1 = r1->Ok_0;
            let r2 = step(s1, x, bools);
            &&& r1 is Ok
            &&& s1.pending == Some(f)
            &&& r2 is Ok
            &&& r2->Ok_0.flags == s1.flags.insert(f, x)
            &&& r2->Ok_0.pending is None
            &&& r2->Ok_0.positionals == s1.positionals
        }),
{
    let t = seq!['-', '-'] + f;
    assert(t.skip(2) =~= f);
    assert(t != seq!['-', '-']);
    assert(t != help_long()) by {
        reveal_strlit("help");
        if t == help_long() {
            assert(t.skip(2) =~= "help"@);
        }
    }
    assert(t != seq!['-', 'h']) by {
        if t == seq!['-', 'h'] {
            assert(t[1] == '-');
        }
    }
    lemma_pos_of(f, '=');
    if pos_of(f, '=') is Some {
        let i = pos_of(f, '=')->0;
        assert(f.contains('=')) by {
            assert(f[i] == '=');
        }
    }
    assert(x != help_long() && x != seq!['-', 'h'] && x != seq!['-', '-']) by {
        if x == help_long() {
            assert(x[0] == '-');
        }
    }
}

} // verus!
