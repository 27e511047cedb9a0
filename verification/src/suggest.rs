//! "Did you mean" suggestions for unknown command names.
use vstd::prelude::*;
use crate::text::{chars_of, join, owned, push_str};

verus! {

broadcast use vstd::seq_lib::group_seq_properties;

/// What `str::to_lowercase` returns for `s` (full Unicode lower-case mapping).
pub uninterp spec fn lowercase(s: Seq<char>) -> Seq<char>;

/// Lower-cases `s` with std's `str::to_lowercase`; the result is named by
/// [`lowercase`], which depends on `s` alone.
#[verifier::external_body]
pub(crate) fn to_lowercase(s: &str) -> (r: String)
    ensures
        r@ == lowercase(s@),
{
    s.to_lowercase()
}

pub open spec fn min_nat(x: nat, y: nat) -> nat {
    if x <= y { x } else { y }
}

/// Levenshtein edit distance: the fewest single-character insertions,
/// deletions and substitutions that turn `a` into `b`.
pub open spec fn edit_distance(a: Seq<char>, b: Seq<char>) -> nat
    decreases a.len() + b.len(),
{
    if a.len() == 0 {
        b.len()
    } else if b.len() == 0 {
        a.len()
    } else {
        min_nat(
            min_nat(edit_distance(a.drop_last(), b) + 1, edit_distance(a, b.drop_last()) + 1),
            edit_distance(a.drop_last(), b.drop_last()) + if a.last() == b.last() { 0nat } else { 1nat },
        )
    }
}

pub proof fn lemma_edit_distance_bound(a: Seq<char>, b: Seq<char>)
    ensures
        edit_distance(a, b) <= if a.len() >= b.len() { a.len() } else { b.len() },
    decreases a.len() + b.len(),
{
    if a.len() > 0 && b.len() > 0 {
        lemma_edit_distance_bound(a.drop_last(), b.drop_last());
    }
}

/// Single-row dynamic-programming Levenshtein distance over characters.
pub fn levenshtein(a: &str, b: &str) -> (r: usize)
    ensures
        r == edit_distance(a@, b@),
{
    let a = chars_of(a);
    let b = chars_of(b);
    let n = a.len();
    let m = b.len();
    if n == 0 {
        return m;
    }
    if m == 0 {
        return n;
    }
    let mut prev: Vec<usize> = Vec::new();
    prev.push(0);
    proof {
        assert(a@.take(0).len() == 0);
        assert(b@.take(0).len() == 0);
    }
    let mut j: usize = 0;
    while j < m
        invariant
            m == b@.len(),
            j <= m,
            prev@.len() == j + 1,
            forall|k: int| 0 <= k <= j ==> prev@[k] == edit_distance(a@.take(0), b@.take(k)),
        decreases m - j,
    {
        j = j + 1;
        prev.push(j);
        proof {
            assert(a@.take(0).len() == 0);
            assert(b@.take(j as int).len() == j);
        }
    }
    let mut i: usize = 0;
    while i < n
        invariant
            n == a@.len(),
            m == b@.len(),
            n > 0 && m > 0,
            i <= n,
            prev@.len() == m + 1,
            forall|k: int| 0 <= k <= m ==> prev@[k] == edit_distance(a@.take(i as int), b@.take(k)),
        decreases n - i,
    {
        let mut curr: Vec<usize> = Vec::new();
        curr.push(i + 1);
        proof {
            assert(a@.take(i + 1).len() == i + 1);
            assert(b@.take(0).len() == 0);
        }
        let mut j: usize = 0;
        while j < m
            invariant
                n == a@.len(),
                m == b@.len(),
                i < n,
                j <= m,
                prev@.len() == m + 1,
                forall|k: int| 0 <= k <= m ==> prev@[k] == edit_distance(a@.take(i as int), b@.take(k)),
                curr@.len() == j + 1,
                forall|k: int| 0 <= k <= j ==> curr@[k] == edit_distance(a@.take(i + 1), b@.take(k)),
            decreases m - j,
        {
            let cost: usize = if a[i] == b[j] { 0 } else { 1 };
            proof {
                lemma_edit_distance_bound(a@.take(i as int), b@.take(j as int));
                let x = a@.take(i + 1);
                let y = b@.take(j + 1);
                assert(x.drop_last() =~= a@.take(i as int));
                assert(y.drop_last() =~= b@.take(j as int));
                assert(x.last() == a@[i as int]);
                assert(y.last() == b@[j as int]);
            }
            let best = prev[j] + cost;
            let side = if prev[j + 1] < curr[j] { prev[j + 1] } else { curr[j] };
            let v = if side < best { side + 1 } else { best };
            curr.push(v);
            j = j + 1;
        }
        prev = curr;
        i = i + 1;
    }
    proof {
        assert(a@.take(n as int) =~= a@);
        assert(b@.take(m as int) =~= b@);
    }
    prev[m]
}

/// Whether `cand` is a plausible correction of the lower-cased `bad`: within
/// edit distance 2, and strictly closer than the candidate's length.
pub open spec fn plausible(bad_lower: Seq<char>, cand: Seq<char>) -> bool {
    let d = edit_distance(bad_lower, lowercase(cand));
    d <= 2 && d < if cand.len() >= 1 { cand.len() } else { 1 }
}

/// The best plausible candidate among `valid` with its distance: the first
/// one at the smallest distance.
pub open spec fn best_candidate(bad_lower: Seq<char>, valid: Seq<Seq<char>>) -> Option<(Seq<char>, nat)>
    decreases valid.len(),
{
    if valid.len() == 0 {
        None
    } else {
        let best = best_candidate(bad_lower, valid.drop_last());
        let cand = valid.last();
        let d = edit_distance(bad_lower, lowercase(cand));
        if plausible(bad_lower, cand) {
            match best {
                None => Some((cand, d)),
                Some((b, bd)) => if d < bd {
                    Some((cand, d))
                } else {
                    best
                },
            }
        } else {
            best
        }
    }
}

/// The closest plausible name for `bad` among `valid` (case-insensitive).
pub open spec fn nearest(bad: Seq<char>, valid: Seq<Seq<char>>) -> Option<Seq<char>> {
    match best_candidate(lowercase(bad), valid) {
        Some((c, _)) => Some(c),
        None => None,
    }
}

proof fn lemma_best_candidate(b: Seq<char>, valid: Seq<Seq<char>>)
    ensures
        match best_candidate(b, valid) {
            None => forall|j: int| 0 <= j < valid.len() ==> !plausible(b, #[trigger] valid[j]),
            Some((c, d)) => valid.contains(c) && plausible(b, c) && d == edit_distance(
                b,
                lowercase(c),
            ) && forall|j: int|
                0 <= j < valid.len() && plausible(b, #[trigger] valid[j]) ==> d <= edit_distance(
                    b,
                    lowercase(valid[j]),
                ),
        },
    decreases valid.len(),
{
    if valid.len() > 0 {
        let p = valid.drop_last();
        let n = valid.len() - 1;
        lemma_best_candidate(b, p);
        let cand = valid.last();
        let d = edit_distance(b, lowercase(cand));
        assert(cand == valid[n]);
        assert forall|j: int| 0 <= j < n implies #[trigger] p[j] == valid[j] by {}
        let r = best_candidate(b, valid);
        match best_candidate(b, p) {
            Some((c, bd)) => {
                let k = choose|k: int| 0 <= k < p.len() && p[k] == c;
                assert(valid[k] == c);
                if plausible(b, cand) && d < bd {
                    assert(valid.contains(cand));
                    assert forall|j: int|
                        0 <= j < valid.len() && plausible(b, #[trigger] valid[j]) implies d
                        <= edit_distance(b, lowercase(valid[j])) by {
                        if j < n {
                            assert(p[j] == valid[j]);
                        }
                    }
                } else {
                    assert forall|j: int|
                        0 <= j < valid.len() && plausible(b, #[trigger] valid[j]) implies bd
                        <= edit_distance(b, lowercase(valid[j])) by {
                        if j < n {
                            assert(p[j] == valid[j]);
                        }
                    }
                }
            },
            None => {
                if plausible(b, cand) {
                    assert(valid.contains(cand));
                    assert forall|j: int|
                        0 <= j < valid.len() && plausible(b, #[trigger] valid[j]) implies d
                        <= edit_distance(b, lowercase(valid[j])) by {
                        if j < n {
                            assert(p[j] == valid[j]);
                            assert(!plausible(b, p[j]));
                        }
                    }
                } else {
                    assert forall|j: int| 0 <= j < valid.len() implies !plausible(
                        b,
                        #[trigger] valid[j],
                    ) by {
                        if j < n {
                            assert(p[j] == valid[j]);
                        }
                    }
                }
            },
        }
    }
}

/// A typo within edit distance 2 of a valid name (ignoring case), and
/// closer than that name is long, always gets a suggestion: the suggestion
/// is one of the valid names, no farther from the typo than that one, and
/// itself within distance 2 and closer than its own length. No suggestion
/// is ever a name farther than 2.
pub proof fn law_close_typos_get_a_suggestion(bad: Seq<char>, valid: Seq<Seq<char>>, i: int)
    requires
        0 <= i < valid.len(),
        edit_distance(lowercase(bad), lowercase(valid[i])) <= 2,
        edit_distance(lowercase(bad), lowercase(valid[i])) < if valid[i].len() >= 1 {
            valid[i].len()
        } else {
            1
        },
    ensures
        nearest(bad, valid) is Some,
        valid.contains(nearest(bad, valid)->0),
        edit_distance(lowercase(bad), lowercase(nearest(bad, valid)->0)) <= edit_distance(
            lowercase(bad),
            lowercase(valid[i]),
        ),
{
    lemma_best_candidate(lowercase(bad), valid);
    assert(plausible(lowercase(bad), valid[i]));
}

/// A suggestion, when there is one, is a valid name within edit distance 2
/// of the typo (ignoring case) and closer than its own length.
pub proof fn law_suggestions_are_close(bad: Seq<char>, valid: Seq<Seq<char>>)
    ensures
        nearest(bad, valid) matches Some(c) ==> valid.contains(c) && edit_distance(
            lowercase(bad),
            lowercase(c),
        ) <= 2 && edit_distance(lowercase(bad), lowercase(c)) < if c.len() >= 1 {
            c.len()
        } else {
            1
        },
{
    lemma_best_candidate(lowercase(bad), valid);
}

proof fn lemma_best_is_first(b: Seq<char>, valid: Seq<Seq<char>>)
    ensures
        best_candidate(b, valid) matches Some((c, d)) ==> exists|k: int|
            0 <= k < valid.len() && #[trigger] valid[k] == c && forall|j: int|
                0 <= j < k && plausible(b, #[trigger] valid[j]) ==> d < edit_distance(
                    b,
                    lowercase(valid[j]),
                ),
    decreases valid.len(),
{
    if valid.len() > 0 {
        let p = valid.drop_last();
        let n = valid.len() - 1;
        lemma_best_is_first(b, p);
        lemma_best_candidate(b, p);
        let cand = valid.last();
        let d = edit_distance(b, lowercase(cand));
        assert forall|j: int| 0 <= j < n implies #[trigger] p[j] == valid[j] by {}
        let takes_last = plausible(b, cand) && match best_candidate(b, p) {
            None => true,
            Some((_, bd)) => d < bd,
        };
        if takes_last {
            assert(valid[n] == cand);
            assert forall|j: int|
                0 <= j < n && plausible(b, #[trigger] valid[j]) implies d < edit_distance(
                b,
                lowercase(valid[j]),
            ) by {
                assert(p[j] == valid[j]);
            }
        } else if best_candidate(b, p) is Some {
            let (c, bd) = best_candidate(b, p)->0;
            let k = choose|k: int|
                0 <= k < p.len() && #[trigger] p[k] == c && forall|j: int|
                    0 <= j < k && plausible(b, #[trigger] p[j]) ==> bd < edit_distance(
                        b,
                        lowercase(p[j]),
                    );
            assert(valid[k] == c);
            assert forall|j: int|
                0 <= j < k && plausible(b, #[trigger] valid[j]) implies bd < edit_distance(
                b,
                lowercase(valid[j]),
            ) by {
                assert(p[j] == valid[j]);
            }
        }
    }
}

/// Among names equally close to the typo, the first listed is suggested:
/// the suggestion stands at some position `k` of `valid`, and every earlier
/// name within edit distance 2 and closer than its own length is strictly
/// farther from the typo (ignoring case).
pub proof fn law_first_of_equally_close_names_wins(bad: Seq<char>, valid: Seq<Seq<char>>)
    ensures
        nearest(bad, valid) matches Some(c) ==> exists|k: int|
            0 <= k < valid.len() && #[trigger] valid[k] == c && forall|j: int|
                0 <= j < k && edit_distance(lowercase(bad), lowercase(#[trigger] valid[j])) <= 2
                    && edit_distance(lowercase(bad), lowercase(valid[j])) < if valid[j].len()
                    >= 1 {
                    valid[j].len()
                } else {
                    1
                } ==> edit_distance(lowercase(bad), lowercase(c)) < edit_distance(
                    lowercase(bad),
                    lowercase(valid[j]),
                ),
{
    lemma_best_is_first(lowercase(bad), valid);
    lemma_best_candidate(lowercase(bad), valid);
}

pub open spec fn str_views(v: Seq<&str>) -> Seq<Seq<char>> {
    v.map_values(|s: &str| s@)
}

/// Closest candidate by case-insensitive Levenshtein distance, gated so only a
/// plausible typo is offered.
pub fn nearest_name(bad: &str, valid: &[&str]) -> (r: Option<String>)
    ensures
        match r {
            Some(s) => nearest(bad@, str_views(valid@)) == Some(s@),
            None => nearest(bad@, str_views(valid@)) is None,
        },
{
    let ghost vs = str_views(valid@);
    let bad_lower = to_lowercase(bad);
    let mut best: Option<(usize, usize)> = None;
    let mut i: usize = 0;
    while i < valid.len()
        invariant
            i <= valid.len(),
            vs == str_views(valid@),
            bad_lower@ == lowercase(bad@),
            match best {
                None => best_candidate(bad_lower@, vs.take(i as int)) is None,
                Some((k, d)) => k < i && best_candidate(bad_lower@, vs.take(i as int)) == Some((vs[k as int], d as nat)),
            },
        decreases valid.len() - i,
    {
        let cand = valid[i];
        let lower = to_lowercase(cand);
        let d = levenshtein(bad_lower.as_str(), lower.as_str());
        let len = chars_of(cand).len();
        let limit = if len >= 1 { len } else { 1 };
        proof {
            assert(vs.take(i + 1).drop_last() =~= vs.take(i as int));
            assert(vs.take(i + 1).last() == cand@);
        }
        if d <= 2 && d < limit {
            match best {
                None => {
                    best = Some((i, d));
                },
                Some((_, bd)) => {
                    if d < bd {
                        best = Some((i, d));
                    }
                },
            }
        }
        i = i + 1;
    }
    proof {
        assert(vs.take(valid.len() as int) =~= vs);
    }
    match best {
        None => None,
        Some((k, _)) => Some(owned(valid[k])),
    }
}

pub open spec fn unknown_fix(scope: Seq<char>, bad: Seq<char>, valid: Seq<Seq<char>>) -> Seq<char> {
    if valid.len() == 0 {
        "Run the root command to inspect the available "@ + scope + "s."@
    } else {
        let nudge = match nearest(bad, valid) {
            Some(near) => "Did you mean `"@ + near + "`? "@,
            None => Seq::empty(),
        };
        nudge + "Valid "@ + scope + "s: "@ + join(valid, ", "@) + "."@
    }
}

/// Corrective `fix` text for an unknown command/subcommand error: a
/// nearest-match nudge when the token looks like a typo, then every valid name.
pub fn unknown_command_fix(scope: &str, bad: &str, valid: &[&str]) -> (r: String)
    ensures
        r@ == unknown_fix(scope@, bad@, str_views(valid@)),
{
    if valid.len() == 0 {
        let mut fix = owned("Run the root command to inspect the available ");
        push_str(&mut fix, scope);
        push_str(&mut fix, "s.");
        return fix;
    }
    let mut fix = String::new();
    match nearest_name(bad, valid) {
        Some(near) => {
            push_str(&mut fix, "Did you mean `");
            push_str(&mut fix, near.as_str());
            push_str(&mut fix, "`? ");
        },
        None => {},
    }
    push_str(&mut fix, "Valid ");
    push_str(&mut fix, scope);
    push_str(&mut fix, "s: ");
    let joined = join_strs(valid, ", ");
    push_str(&mut fix, joined.as_str());
    push_str(&mut fix, ".");
    proof {
        assert(fix@ =~= unknown_fix(scope@, bad@, str_views(valid@)));
    }
    fix
}

/// Joins string slices with `sep`.
pub fn join_strs(parts: &[&str], sep: &str) -> (r: String)
    ensures
        r@ == join(str_views(parts@), sep@),
{
    let mut r = String::new();
    let ghost vs = str_views(parts@);
    let mut i: usize = 0;
    while i < parts.len()
        invariant
            i <= parts.len(),
            vs == str_views(parts@),
            r@ == join(vs.take(i as int), sep@),
        decreases parts.len() - i,
    {
        if i != 0 {
            push_str(&mut r, sep);
        }
        push_str(&mut r, parts[i]);
        assert(vs.take(i + 1).drop_last() =~= vs.take(i as int));
        i = i + 1;
    }
    assert(vs.take(parts.len() as int) =~= vs);
    r
}

} // verus!
