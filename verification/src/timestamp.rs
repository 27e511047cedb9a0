//! RFC 3339 UTC timestamps for envelopes, and the `SOURCE_DATE_EPOCH` pin.
use vstd::prelude::*;
use crate::text::{all_digits, chars_of, str_eq, digits_value, is_digit, is_digit_exec, lemma_padded, padded, pow10, push_char, push_padded};

verus! {

/// Latest epoch second representable as a four-digit-year RFC 3339 timestamp
/// (9999-12-31T23:59:59Z).
pub const MAX_RFC3339_EPOCH: u64 = 253_402_300_799;

/// Days since 0000-03-01 for a day count since 1970-01-01.
pub open spec fn shifted_days(days: nat) -> nat {
    days + 719_468
}

/// Civil (proleptic Gregorian) date `(year, month, day)` of the day `days`
/// after 1970-01-01, by Howard Hinnant's `civil_from_days`.
#[verifier::opaque]
pub open spec fn civil_from_days(days: nat) -> (nat, nat, nat) {
    let z = shifted_days(days);
    let era = z / 146_097;
    let doe = z % 146_097;
    let yoe = ((doe - doe / 1_460 + doe / 36_524 - doe / 146_096) / 365) as nat;
    let doy = (doe - (365 * yoe + yoe / 4 - yoe / 100)) as nat;
    let mp = (5 * doy + 2) / 153;
    let day = (doy - (153 * mp + 2) / 5 + 1) as nat;
    let month = if mp < 10 { mp + 3 } else { (mp - 9) as nat };
    let year = yoe + era * 400 + if month <= 2 { 1nat } else { 0nat };
    (year, month, day)
}

/// Day count since 1970-01-01 of the civil date, by Hinnant's `days_from_civil`.
#[verifier::opaque]
pub open spec fn days_from_civil(year: nat, month: nat, day: nat) -> int {
    let y = year - if month <= 2 { 1int } else { 0int };
    let era = y / 400;
    let yoe = y % 400;
    let mp: int = if month > 2 { month - 3 } else { (month + 9) as int };
    let doy = (153 * mp + 2) / 5 + day - 1;
    let doe = yoe * 365 + yoe / 4 - yoe / 100 + doy;
    era * 146_097 + doe - 719_468
}

/// `YYYY-MM-DDTHH:MM:SSZ` for an epoch second.
pub open spec fn rfc3339(epoch: nat) -> Seq<char> {
    let (year, month, day) = civil_from_days(epoch / 86_400);
    let secs = epoch % 86_400;
    padded(year, 4) + seq!['-'] + padded(month, 2) + seq!['-'] + padded(day, 2) + seq!['T']
        + padded(secs / 3_600, 2) + seq![':'] + padded(secs % 3_600 / 60, 2) + seq![':']
        + padded(secs % 60, 2) + seq!['Z']
}

/// The value of a field of digits: at least one digit, nothing else.
pub open spec fn unsigned_field(f: Seq<char>) -> Option<nat> {
    if f.len() >= 1 && all_digits(f) {
        Some(digits_value(f))
    } else {
        None
    }
}

/// The epoch second that the fields of `s` name, when `s` has the shape
/// `YYYY-MM-DDTHH:MM:SSZ` with fields of digits in range; years before 1970
/// are refused. The day is only checked against 31: see [`parse_rfc3339`].
pub open spec fn read_rfc3339_fields(s: Seq<char>) -> Option<nat> {
    if s.len() != 20 || s[4] != '-' || s[7] != '-' || s[10] != 'T' || s[13] != ':' || s[16]
        != ':' || s[19] != 'Z' {
        None
    } else {
        match (
            unsigned_field(s.subrange(0, 4)),
            unsigned_field(s.subrange(5, 7)),
            unsigned_field(s.subrange(8, 10)),
            unsigned_field(s.subrange(11, 13)),
            unsigned_field(s.subrange(14, 16)),
            unsigned_field(s.subrange(17, 19)),
        ) {
            (Some(year), Some(month), Some(day), Some(hh), Some(mm), Some(ss)) => {
                if year < 1970 || month < 1 || month > 12 || day < 1 || day > 31 || hh > 23 || mm
                    > 59 || ss > 59 {
                    None
                } else {
                    Some((days_from_civil(year, month, day) * 86_400 + hh * 3_600 + mm * 60
                        + ss) as nat)
                }
            },
            _ => None,
        }
    }
}

/// The epoch second whose rendering by [`rfc3339`] is exactly `s`, or
/// `None`: the reading of the fields, kept only when it renders back to `s`.
/// So a day past the end of its month (`2026-02-30`), an hour of 24 or a
/// field with a sign is refused.
pub open spec fn parse_rfc3339(s: Seq<char>) -> Option<nat> {
    match read_rfc3339_fields(s) {
        Some(n) => if rfc3339(n) == s {
            Some(n)
        } else {
            None
        },
        None => None,
    }
}

pub open spec fn yoe_of(doe: int) -> int {
    (doe - doe / 1_460 + doe / 36_524 - doe / 146_096) / 365
}

pub open spec fn doy_of(doe: int, yoe: int) -> int {
    doe - (365 * yoe + yoe / 4 - yoe / 100)
}

proof fn lemma_year_of_era(doe: int)
    requires
        0 <= doe < 146_097,
    ensures
        0 <= yoe_of(doe) <= 399,
        0 <= doy_of(doe, yoe_of(doe)) <= 365,
{
}

proof fn lemma_month_of_year(doy: int)
    requires
        0 <= doy <= 365,
    ensures
        ({
            let mp = (5 * doy + 2) / 153;
            let d = doy - (153 * mp + 2) / 5 + 1;
            &&& 0 <= mp <= 11
            &&& 1 <= d <= 31
            &&& (153 * mp + 2) / 5 + d - 1 == doy
        }),
{
}

proof fn lemma_back_to_days(era: int, doe: int, yoe: int, doy: int, mp: int, d: int, m: int, y: int)
    requires
        0 <= doe < 146_097,
        0 <= era,
        yoe == yoe_of(doe),
        doy == doy_of(doe, yoe),
        0 <= yoe <= 399,
        0 <= mp <= 11,
        (153 * mp + 2) / 5 + d - 1 == doy,
        m == if mp < 10 { mp + 3 } else { mp - 9 },
        y == yoe + era * 400 + if m <= 2 { 1int } else { 0int },
    ensures
        ({
            let y1 = y - if m <= 2 { 1int } else { 0int };
            let mp2: int = if m > 2 { m - 3 } else { m + 9 };
            &&& y1 / 400 == era
            &&& y1 % 400 == yoe
            &&& mp2 == mp
            &&& (y1 / 400) * 146_097 + (y1 % 400) * 365 + (y1 % 400) / 4 - (y1 % 400) / 100
                + ((153 * mp2 + 2) / 5 + d - 1) == era * 146_097 + doe
        }),
{
    let y1 = y - if m <= 2 { 1int } else { 0int };
    assert(y1 == yoe + era * 400);
    assert(y1 / 400 == era) by (nonlinear_arith)
        requires
            y1 == yoe + era * 400,
            0 <= yoe <= 399,
            0 <= era,
    ;
    assert(y1 % 400 == yoe) by (nonlinear_arith)
        requires
            y1 == yoe + era * 400,
            0 <= yoe <= 399,
            0 <= era,
    ;
}

pub proof fn lemma_civil_ranges(days: nat)
    requires
        days <= 2_932_896,
    ensures
        ({
            let (y, m, d) = civil_from_days(days);
            &&& 1970 <= y <= 9999
            &&& 1 <= m <= 12
            &&& 1 <= d <= 31
            &&& days_from_civil(y, m, d) == days
        }),
{
    let z = shifted_days(days);
    let era = z / 146_097;
    let doe = z % 146_097;
    lemma_year_of_era(doe as int);
    let yoe = yoe_of(doe as int);
    let doy = doy_of(doe as int, yoe);
    lemma_month_of_year(doy);
    let mp = (5 * doy + 2) / 153;
    let d = doy - (153 * mp + 2) / 5 + 1;
    let m: int = if mp < 10 { mp + 3 } else { mp - 9 };
    let y = yoe + era * 400 + if m <= 2 { 1int } else { 0int };
    let (cy, cm, cd) = civil_from_days(days);
    assert(cy == y && cm == m && cd == d) by {
        reveal(civil_from_days);
    }
    lemma_back_to_days(era as int, doe as int, yoe, doy, mp, d, m, y);
    reveal(days_from_civil);
    assert(z == era * 146_097 + doe);
    lemma_year_bounds(z as int);
}

proof fn lemma_year_bounds(z: int)
    requires
        719_468 <= z <= 3_652_364,
    ensures
        ({
            let era = z / 146_097;
            let doe = z % 146_097;
            let yoe = yoe_of(doe);
            let doy = doy_of(doe, yoe);
            let mp = (5 * doy + 2) / 153;
            let m: int = if mp < 10 { mp + 3 } else { mp - 9 };
            let y = yoe + era * 400 + if m <= 2 { 1int } else { 0int };
            1970 <= y <= 9999
        }),
{
    let era = z / 146_097;
    assert(4 <= era <= 24);
    let doe = z % 146_097;
    if era == 4 {
        assert(doe >= 135_080);
    }
    if era == 24 {
        assert(doe <= 146_036);
    }
}

proof fn lemma_field_of_padded(x: nat, w: nat)
    requires
        w >= 1,
        x < pow10(w),
    ensures
        padded(x, w).len() == w,
        unsigned_field(padded(x, w)) == Some(x),
{
    lemma_padded(x, w);
    assert(is_digit(padded(x, w)[0]));
}

/// Every timestamp the crate emits (up to [`MAX_RFC3339_EPOCH`]) parses back
/// to the epoch second it was rendered from.
#[verifier::rlimit(50)]
pub proof fn lemma_rfc3339_roundtrip(epoch: nat)
    requires
        epoch <= MAX_RFC3339_EPOCH,
    ensures
        read_rfc3339_fields(rfc3339(epoch)) == Some(epoch),
        parse_rfc3339(rfc3339(epoch)) == Some(epoch),
{
    let days = epoch / 86_400;
    let secs = epoch % 86_400;
    lemma_civil_ranges(days);
    let (y, m, d) = civil_from_days(days);
    let hh = secs / 3_600;
    let mi = secs % 3_600 / 60;
    let ss = secs % 60;
    assert(pow10(4) == 10_000 && pow10(2) == 100) by {
        reveal_with_fuel(pow10, 5);
    }
    lemma_field_of_padded(y, 4);
    lemma_field_of_padded(m, 2);
    lemma_field_of_padded(d, 2);
    lemma_field_of_padded(hh, 2);
    lemma_field_of_padded(mi, 2);
    lemma_field_of_padded(ss, 2);
    let s = rfc3339(epoch);
    let py = padded(y, 4);
    let pm = padded(m, 2);
    let pd = padded(d, 2);
    let ph = padded(hh, 2);
    let pi = padded(mi, 2);
    let ps = padded(ss, 2);
    assert(s =~= py + seq!['-'] + pm + seq!['-'] + pd + seq!['T'] + ph + seq![':'] + pi + seq![':'] + ps + seq!['Z']);
    assert(s.len() == 20);
    assert(s.subrange(0, 4) =~= py);
    assert(s.subrange(5, 7) =~= pm);
    assert(s.subrange(8, 10) =~= pd);
    assert(s.subrange(11, 13) =~= ph);
    assert(s.subrange(14, 16) =~= pi);
    assert(s.subrange(17, 19) =~= ps);
    assert(s[4] == '-' && s[7] == '-' && s[10] == 'T' && s[13] == ':' && s[16] == ':' && s[19] == 'Z');
    lemma_split_seconds(epoch, days, secs, days_from_civil(y, m, d));
}

proof fn lemma_split_seconds(epoch: nat, days: nat, secs: nat, back: int)
    requires
        days == epoch / 86_400,
        secs == epoch % 86_400,
        back == days,
    ensures
        back * 86_400 + (secs / 3_600) * 3_600 + (secs % 3_600 / 60) * 60 + secs % 60 == epoch,
        secs / 3_600 <= 23,
        secs % 3_600 / 60 <= 59,
{
}

/// Format epoch seconds as an RFC 3339 UTC timestamp (`2026-06-10T14:42:17Z`).
pub fn rfc3339_utc(epoch: u64) -> (r: String)
    ensures
        r@ == rfc3339(epoch as nat),
{
    let secs_of_day = epoch % 86_400;
    let hh = secs_of_day / 3_600;
    let mm = secs_of_day % 3_600 / 60;
    let ss = secs_of_day % 60;
    let z = epoch / 86_400 + 719_468;
    let era = z / 146_097;
    let doe = z % 146_097;
    proof {
        lemma_year_of_era(doe as int);
    }
    let yoe = (doe - doe / 1_460 + doe / 36_524 - doe / 146_096) / 365;
    let doy = doe - (365 * yoe + yoe / 4 - yoe / 100);
    proof {
        lemma_month_of_year(doy as int);
    }
    let mp = (5 * doy + 2) / 153;
    let day = doy - (153 * mp + 2) / 5 + 1;
    let month = if mp < 10 { mp + 3 } else { mp - 9 };
    let year = yoe + era * 400 + if month <= 2 { 1u64 } else { 0u64 };
    proof {
        reveal(civil_from_days);
        assert(civil_from_days((epoch / 86_400) as nat) == (year as nat, month as nat, day as nat));
    }
    let mut out = String::new();
    push_padded(&mut out, year, 4);
    push_char(&mut out, '-');
    push_padded(&mut out, month, 2);
    push_char(&mut out, '-');
    push_padded(&mut out, day, 2);
    push_char(&mut out, 'T');
    push_padded(&mut out, hh, 2);
    push_char(&mut out, ':');
    push_padded(&mut out, mm, 2);
    push_char(&mut out, ':');
    push_padded(&mut out, ss, 2);
    push_char(&mut out, 'Z');
    proof {
        assert(out@ =~= rfc3339(epoch as nat));
    }
    out
}

/// The value of the digits `cs[a..b]` (see [`unsigned_field`]), for at most
/// four characters.
fn unsigned_field_exec(cs: &[char], a: usize, b: usize) -> (r: Option<u64>)
    requires
        a <= b <= cs@.len(),
        b - a <= 4,
    ensures
        match r {
            Some(v) => unsigned_field(cs@.subrange(a as int, b as int)) == Some(v as nat)
                && v < pow10((b - a) as nat),
            None => unsigned_field(cs@.subrange(a as int, b as int)) is None,
        },
{
    let ghost g = cs@.subrange(a as int, b as int);
    if a >= b {
        return None;
    }
    let mut v: u64 = 0;
    let mut i = a;
    while i < b
        invariant
            a <= i <= b,
            b <= cs@.len(),
            b - a <= 4,
            g == cs@.subrange(a as int, b as int),
            all_digits(cs@.subrange(a as int, i as int)),
            v == digits_value(cs@.subrange(a as int, i as int)),
            v < pow10((i - a) as nat),
        decreases b - i,
    {
        if !is_digit_exec(cs[i]) {
            assert(g[i - a] == cs@[i as int]);
            assert(!all_digits(g));
            return None;
        }
        proof {
            assert(cs@.subrange(a as int, i + 1).drop_last() =~= cs@.subrange(a as int, i as int));
            assert(pow10((i + 1 - a) as nat) == 10 * pow10((i - a) as nat));
            assert(pow10(4) == 10_000) by {
                reveal_with_fuel(pow10, 5);
            }
            assert(pow10((i - a) as nat) <= 1000) by {
                reveal_with_fuel(pow10, 5);
            }
        }
        v = v * 10 + (cs[i] as u64 - '0' as u64);
        i = i + 1;
    }
    proof {
        assert(cs@.subrange(a as int, b as int) == g);
    }
    Some(v)
}

/// The epoch second the fields of `s` name (see [`read_rfc3339_fields`]).
fn read_fields_exec(s: &str) -> (r: Option<u64>)
    ensures
        match r {
            Some(v) => read_rfc3339_fields(s@) == Some(v as nat),
            None => read_rfc3339_fields(s@) is None,
        },
{
    let b = chars_of(s);
    if b.len() != 20 || b[4] != '-' || b[7] != '-' || b[10] != 'T' || b[13] != ':' || b[16] != ':'
        || b[19] != 'Z' {
        return None;
    }
    let year = match unsigned_field_exec(b.as_slice(), 0, 4) {
        Some(v) => v,
        None => return None,
    };
    let month = match unsigned_field_exec(b.as_slice(), 5, 7) {
        Some(v) => v,
        None => return None,
    };
    let day = match unsigned_field_exec(b.as_slice(), 8, 10) {
        Some(v) => v,
        None => return None,
    };
    let hh = match unsigned_field_exec(b.as_slice(), 11, 13) {
        Some(v) => v,
        None => return None,
    };
    let mm = match unsigned_field_exec(b.as_slice(), 14, 16) {
        Some(v) => v,
        None => return None,
    };
    let ss = match unsigned_field_exec(b.as_slice(), 17, 19) {
        Some(v) => v,
        None => return None,
    };
    if year < 1970 || month < 1 || month > 12 || day < 1 || day > 31 {
        return None;
    }
    proof {
        assert(pow10(4) == 10_000) by {
            reveal_with_fuel(pow10, 5);
        }
    }
    if hh > 23 || mm > 59 || ss > 59 {
        return None;
    }
    proof {
        reveal(days_from_civil);
        lemma_days_nonnegative(year as int, month as int, day as int);
    }
    let y = year - if month <= 2 { 1u64 } else { 0u64 };
    let era = y / 400;
    let yoe = y % 400;
    let mp = if month > 2 { month - 3 } else { month + 9 };
    let doy = (153 * mp + 2) / 5 + day - 1;
    let doe = yoe * 365 + yoe / 4 - yoe / 100 + doy;
    let days = era * 146_097 + doe - 719_468;
    Some(days * 86_400 + hh * 3_600 + mm * 60 + ss)
}

/// Parse exactly the shape [`rfc3339_utc`] emits back to epoch seconds.
/// Returns `None` for anything else, including pre-1970 dates and non-UTC
/// offsets.
pub fn parse_rfc3339_utc(s: &str) -> (r: Option<u64>)
    ensures
        match r {
            Some(v) => parse_rfc3339(s@) == Some(v as nat) && rfc3339(v as nat) == s@,
            None => parse_rfc3339(s@) is None,
        },
        forall|e: nat| e <= MAX_RFC3339_EPOCH && #[trigger] rfc3339(e) == s@ ==> r == Some(e as u64),
{
    let r = match read_fields_exec(s) {
        Some(n) => {
            let back = rfc3339_utc(n);
            if str_eq(back.as_str(), s) {
                Some(n)
            } else {
                None
            }
        },
        None => None,
    };
    proof {
        assert forall|e: nat| e <= MAX_RFC3339_EPOCH && #[trigger] rfc3339(e) == s@ implies r == Some(
            e as u64,
        ) by {
            lemma_rfc3339_roundtrip(e);
        }
    }
    r
}

proof fn lemma_days_nonnegative(year: int, month: int, day: int)
    requires
        1970 <= year < 10_000,
        1 <= month <= 12,
        1 <= day <= 31,
    ensures
        ({
            let y = year - if month <= 2 { 1int } else { 0int };
            let mp: int = if month > 2 { month - 3 } else { month + 9 };
            let doe = (y % 400) * 365 + (y % 400) / 4 - (y % 400) / 100 + (153 * mp + 2) / 5 + day - 1;
            &&& (y / 400) * 146_097 + doe >= 719_468
            &&& (y / 400) * 146_097 + doe - 719_468 <= 3_000_000
        }),
{
    let y = year - if month <= 2 { 1int } else { 0int };
    assert(4 <= y / 400 <= 24);
}

/// Unicode `White_Space`, the set `char::is_whitespace` tests.
pub open spec fn is_whitespace(c: char) -> bool {
    ||| '\u{9}' <= c <= '\u{d}'
    ||| c == ' '
    ||| c == '\u{85}'
    ||| c == '\u{a0}'
    ||| c == '\u{1680}'
    ||| '\u{2000}' <= c <= '\u{200a}'
    ||| c == '\u{2028}'
    ||| c == '\u{2029}'
    ||| c == '\u{202f}'
    ||| c == '\u{205f}'
    ||| c == '\u{3000}'
}

pub fn is_whitespace_exec(c: char) -> (r: bool)
    ensures
        r == is_whitespace(c),
{
    ('\u{9}' <= c && c <= '\u{d}') || c == ' ' || c == '\u{85}' || c == '\u{a0}' || c == '\u{1680}'
        || ('\u{2000}' <= c && c <= '\u{200a}') || c == '\u{2028}' || c == '\u{2029}' || c
        == '\u{202f}' || c == '\u{205f}' || c == '\u{3000}'
}

/// `s` without leading whitespace.
pub open spec fn trim_start(s: Seq<char>) -> Seq<char>
    decreases s.len(),
{
    if s.len() > 0 && is_whitespace(s[0]) {
        trim_start(s.drop_first())
    } else {
        s
    }
}

/// `s` without trailing whitespace.
pub open spec fn trim_end(s: Seq<char>) -> Seq<char>
    decreases s.len(),
{
    if s.len() > 0 && is_whitespace(s.last()) {
        trim_end(s.drop_last())
    } else {
        s
    }
}

/// `s` without leading or trailing whitespace, as `str::trim` gives it.
pub open spec fn trim(s: Seq<char>) -> Seq<char> {
    trim_end(trim_start(s))
}

/// What `i128::from_str` makes of `t`: an optional sign, at least one digit,
/// and a value inside the `i128` range.
pub open spec fn i128_literal(t: Seq<char>) -> Option<int> {
    let signed = t.len() >= 1 && (t[0] == '+' || t[0] == '-');
    let digits = if signed { t.skip(1) } else { t };
    if digits.len() >= 1 && all_digits(digits) {
        let magnitude = digits_value(digits) as int;
        let n = if signed && t[0] == '-' { -magnitude } else { magnitude };
        if i128::MIN <= n <= i128::MAX {
            Some(n)
        } else {
            None
        }
    } else {
        None
    }
}

/// The epoch second a `SOURCE_DATE_EPOCH` value pins: malformed and negative
/// values give 0 (never the wall clock), values past the four-digit-year
/// ceiling give [`MAX_RFC3339_EPOCH`].
pub open spec fn source_date_epoch_pin(raw: Seq<char>) -> nat {
    match i128_literal(trim(raw)) {
        Some(n) => if n < 0 {
            0
        } else if n > MAX_RFC3339_EPOCH {
            MAX_RFC3339_EPOCH as nat
        } else {
            n as nat
        },
        None => 0,
    }
}

pub proof fn lemma_trim_start_at(s: Seq<char>, a: int)
    requires
        0 <= a <= s.len(),
        forall|k: int| 0 <= k < a ==> is_whitespace(s[k]),
        a == s.len() || !is_whitespace(s[a]),
    ensures
        trim_start(s) == s.skip(a),
    decreases a,
{
    if a > 0 {
        assert forall|k: int| 0 <= k < a - 1 implies is_whitespace(s.drop_first()[k]) by {
            assert(s.drop_first()[k] == s[k + 1]);
        }
        if a < s.len() {
            assert(s.drop_first()[a - 1] == s[a]);
        }
        lemma_trim_start_at(s.drop_first(), a - 1);
        assert(s.drop_first().skip(a - 1) =~= s.skip(a));
    } else {
        assert(s.skip(0) =~= s);
    }
}

pub proof fn lemma_trim_end_at(s: Seq<char>, b: int)
    requires
        0 <= b <= s.len(),
        forall|k: int| b <= k < s.len() ==> is_whitespace(s[k]),
        b == 0 || !is_whitespace(s[b - 1]),
    ensures
        trim_end(s) == s.take(b),
    decreases s.len() - b,
{
    if b < s.len() {
        lemma_trim_end_at(s.drop_last(), b);
        assert(s.drop_last().take(b) =~= s.take(b));
    } else {
        assert(s.take(b) =~= s);
    }
}

/// Resolve a `SOURCE_DATE_EPOCH` value to a usable epoch second.
pub fn pin_from_source_date_epoch(raw: &str) -> (r: u64)
    ensures
        r as nat == source_date_epoch_pin(raw@),
        r <= MAX_RFC3339_EPOCH,
{
    let cs = chars_of(raw);
    let mut a: usize = 0;
    while a < cs.len() && is_whitespace_exec(cs[a])
        invariant
            a <= cs.len(),
            forall|k: int| 0 <= k < a ==> is_whitespace(cs@[k]),
        decreases cs.len() - a,
    {
        a = a + 1;
    }
    let mut b: usize = cs.len();
    while b > a && is_whitespace_exec(cs[b - 1])
        invariant
            a <= b <= cs.len(),
            forall|k: int| b <= k < cs.len() ==> is_whitespace(cs@[k]),
        decreases b - a,
    {
        b = b - 1;
    }
    let ghost t = cs@.subrange(a as int, b as int);
    proof {
        lemma_trim_start_at(cs@, a as int);
        let ts = cs@.skip(a as int);
        assert forall|k: int| b - a <= k < ts.len() implies is_whitespace(ts[k]) by {
            assert(ts[k] == cs@[a + k]);
        }
        if b > a {
            assert(ts[b - a - 1] == cs@[b - 1]);
        } else {
            if a < cs@.len() {
                assert(!is_whitespace(cs@[a as int]));
                assert(false);
            }
        }
        lemma_trim_end_at(ts, b - a);
        assert(ts.take(b - a) =~= t);
    }
    let signed = b > a && (cs[a] == '+' || cs[a] == '-');
    let negative = signed && cs[a] == '-';
    let start = if signed { a + 1 } else { a };
    let ghost digits = cs@.subrange(start as int, b as int);
    proof {
        if signed {
            assert(t[0] == cs@[a as int]);
            assert(t.skip(1) =~= digits);
        } else {
            if b > a {
                assert(t[0] == cs@[a as int]);
            }
            assert(t =~= digits);
        }
    }
    if start >= b {
        return 0;
    }
    // Accumulate the magnitude; anything past u128 is outside i128 anyway.
    let mut m: u128 = 0;
    let mut i = start;
    while i < b
        invariant
            start <= i <= b,
            b <= cs@.len(),
            start < b,
            cs@ == raw@,
            trim(raw@) == t,
            signed ==> t.len() >= 1 && (t[0] == '+' || t[0] == '-') && t.skip(1) == digits,
            !signed ==> !(t.len() >= 1 && (t[0] == '+' || t[0] == '-')) && t == digits,
            negative == (signed && t[0] == '-'),
            digits == cs@.subrange(start as int, b as int),
            all_digits(cs@.subrange(start as int, i as int)),
            m == digits_value(cs@.subrange(start as int, i as int)),
        decreases b - i,
    {
        if !is_digit_exec(cs[i]) {
            assert(digits[i - start] == cs@[i as int]);
            return 0;
        }
        proof {
            assert(cs@.subrange(start as int, i + 1).drop_last() =~= cs@.subrange(start as int, i as int));
        }
        let d = (cs[i] as u32 - '0' as u32) as u128;
        match m.checked_mul(10) {
            Some(x) => match x.checked_add(d) {
                Some(y) => {
                    m = y;
                },
                None => {
                    proof {
                        if all_digits(digits) {
                            lemma_digits_prefix_bound(digits, (i + 1 - start) as int);
                            assert(cs@.subrange(start as int, i + 1) =~= digits.take(i + 1 - start));
                        }
                    }
                    return 0;
                },
            },
            None => {
                proof {
                    if all_digits(digits) {
                        lemma_digits_prefix_bound(digits, (i + 1 - start) as int);
                        assert(cs@.subrange(start as int, i + 1) =~= digits.take(i + 1 - start));
                    }
                }
                return 0;
            },
        }
        i = i + 1;
    }
    proof {
        assert(cs@.subrange(start as int, b as int) == digits);
    }
    if negative {
        // In range or not, a negative value pins to 0; out of range it is a
        // parse error, which pins to 0 as well.
        0
    } else if m > 170_141_183_460_469_231_731_687_303_715_884_105_727u128 {
        0
    } else if m > MAX_RFC3339_EPOCH as u128 {
        MAX_RFC3339_EPOCH
    } else {
        m as u64
    }
}

/// A digit string is worth at least any of its prefixes.
pub proof fn lemma_digits_prefix_bound(s: Seq<char>, k: int)
    requires
        0 <= k <= s.len(),
        all_digits(s),
    ensures
        digits_value(s) >= digits_value(s.take(k)),
    decreases s.len() - k,
{
    if k < s.len() {
        lemma_digits_prefix_bound(s, k + 1);
        assert(s.take(k + 1).drop_last() =~= s.take(k));
        assert(digits_value(s.take(k + 1)) == digits_value(s.take(k)) * 10 + (s[k] as int - '0' as int));
    } else {
        assert(s.take(k) =~= s);
    }
}

/// The characters of `cs` without leading or trailing whitespace.
pub fn trim_str(cs: &[char]) -> (r: String)
    ensures
        r@ == trim(cs@),
{
    let mut a: usize = 0;
    while a < cs.len() && is_whitespace_exec(cs[a])
        invariant
            a <= cs.len(),
            forall|k: int| 0 <= k < a ==> is_whitespace(cs@[k]),
        decreases cs.len() - a,
    {
        a = a + 1;
    }
    let mut b: usize = cs.len();
    while b > a && is_whitespace_exec(cs[b - 1])
        invariant
            a <= b <= cs.len(),
            forall|k: int| b <= k < cs.len() ==> is_whitespace(cs@[k]),
        decreases b - a,
    {
        b = b - 1;
    }
    proof {
        lemma_trim_start_at(cs@, a as int);
        let ts = cs@.skip(a as int);
        assert forall|k: int| b - a <= k < ts.len() implies is_whitespace(ts[k]) by {
            assert(ts[k] == cs@[a + k]);
        }
        if b > a {
            assert(ts[b - a - 1] == cs@[b - 1]);
        } else {
            if a < cs@.len() {
                assert(!is_whitespace(cs@[a as int]));
                assert(false);
            }
        }
        lemma_trim_end_at(ts, b - a);
        assert(ts.take(b - a) =~= cs@.subrange(a as int, b as int));
    }
    crate::invocation::sub_string(cs, a, b)
}

} // verus!
