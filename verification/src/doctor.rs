//! The built-in `doctor` health checks and the report they make.
//!
//! A check has three outcomes: it passed, it failed, or it did not run. A
//! skipped check is not a failure: it leaves the report healthy and never
//! drives the exit code.
use vstd::prelude::*;
use crate::envelope::ExitCode;
use crate::json::{Json, JsonV, jes, jvs, last_value, law_obj_from_last_wins, obj_from, obj_get};
use crate::request::{CommandOutput, CommandOutputV};
use crate::text::{decimal, owned};

verus! {

broadcast use vstd::seq_lib::group_seq_properties;

/// The three outcomes of a [`Check`].
#[derive(Clone, Copy, Debug, PartialEq, Eq, Structural)]
#[non_exhaustive]
pub enum CheckStatus {
    /// The check ran and what it verifies is healthy.
    Pass,
    /// The check ran and found a problem.
    Fail,
    /// The check did not run; neither healthy nor broken.
    Skip,
}

/// The wire spelling of a status.
pub open spec fn status_text(s: CheckStatus) -> Seq<char> {
    match s {
        CheckStatus::Pass => "pass"@,
        CheckStatus::Fail => "fail"@,
        CheckStatus::Skip => "skip"@,
    }
}

impl CheckStatus {
    /// The wire spelling used in the `doctor` report.
    pub fn as_str(self) -> (r: &'static str)
        ensures
            r@ == status_text(self),
    {
        match self {
            CheckStatus::Pass => "pass",
            CheckStatus::Fail => "fail",
            CheckStatus::Skip => "skip",
        }
    }
}

/// Outcome of a single [`Check`].
#[derive(Clone, Debug, PartialEq, Eq)]
pub struct CheckResult {
    pub status: CheckStatus,
    pub detail: Option<String>,
    pub fix: Option<String>,
}

/// Model of a [`CheckResult`].
pub ghost struct CheckResultV {
    pub status: CheckStatus,
    pub detail: Option<Seq<char>>,
    pub fix: Option<Seq<char>>,
}

impl View for CheckResult {
    type V = CheckResultV;

    open spec fn view(&self) -> CheckResultV {
        CheckResultV {
            status: self.status,
            detail: crate::envelope::opt_str(self.detail),
            fix: crate::envelope::opt_str(self.fix),
        }
    }
}

impl CheckResult {
    /// The check passed, no extra detail.
    pub fn pass() -> (r: CheckResult)
        ensures
            r@ == (CheckResultV { status: CheckStatus::Pass, detail: None, fix: None }),
    {
        CheckResult { status: CheckStatus::Pass, detail: None, fix: None }
    }

    /// The check passed, with an informational detail.
    pub fn pass_with(detail: &str) -> (r: CheckResult)
        ensures
            r@ == (CheckResultV { status: CheckStatus::Pass, detail: Some(detail@), fix: None }),
    {
        CheckResult { status: CheckStatus::Pass, detail: Some(owned(detail)), fix: None }
    }

    /// The check failed: `detail` says what is wrong, `fix` how to recover.
    pub fn fail(detail: &str, fix: &str) -> (r: CheckResult)
        ensures
            r@ == (CheckResultV {
                status: CheckStatus::Fail,
                detail: Some(detail@),
                fix: Some(fix@),
            }),
    {
        CheckResult { status: CheckStatus::Fail, detail: Some(owned(detail)), fix: Some(owned(fix)) }
    }

    /// The check did not run; `reason` lands in `detail`.
    pub fn skip(reason: &str) -> (r: CheckResult)
        ensures
            r@ == (CheckResultV { status: CheckStatus::Skip, detail: Some(reason@), fix: None }),
    {
        CheckResult { status: CheckStatus::Skip, detail: Some(owned(reason)), fix: None }
    }

    /// True unless the check failed.
    pub fn is_ok(&self) -> (r: bool)
        ensures
            r == (self.status != CheckStatus::Fail),
    {
        self.status != CheckStatus::Fail
    }

    /// True only for a failed check.
    pub fn failed(&self) -> (r: bool)
        ensures
            r == (self.status == CheckStatus::Fail),
    {
        self.status == CheckStatus::Fail
    }

    /// True only for a skipped check.
    pub fn skipped(&self) -> (r: bool)
        ensures
            r == (self.status == CheckStatus::Skip),
    {
        self.status == CheckStatus::Skip
    }
}

/// A named health check, the exit code to use if it fails, and what runs it.
pub struct Check<R> {
    name: String,
    exit_code: i32,
    runner: R,
}

impl<R> Check<R> {
    /// A check that runs on its own; fails with [`ExitCode::ERROR`] unless
    /// told otherwise.
    pub fn new(name: &str, run: R) -> (r: Check<R>)
        ensures
            r.name_view() == name@,
            r.exit_code_value() == ExitCode::ERROR,
            r.runner_value() == run,
    {
        Check { name: owned(name), exit_code: ExitCode::ERROR, runner: run }
    }

    /// A check whose runner reads the request that triggered the `doctor`
    /// run.
    pub fn with_request(name: &str, run: R) -> (r: Check<R>)
        ensures
            r.name_view() == name@,
            r.exit_code_value() == ExitCode::ERROR,
            r.runner_value() == run,
    {
        Check { name: owned(name), exit_code: ExitCode::ERROR, runner: run }
    }

    pub closed spec fn name_view(&self) -> Seq<char> {
        self.name@
    }

    pub closed spec fn exit_code_value(&self) -> i32 {
        self.exit_code
    }

    pub closed spec fn runner_value(&self) -> R {
        self.runner
    }

    /// Process exit code to surface when this check fails.
    pub fn exit_code(self, code: i32) -> (r: Check<R>)
        ensures
            r.name_view() == self.name_view(),
            r.exit_code_value() == code,
            r.runner_value() == self.runner_value(),
    {
        Check { exit_code: code, ..self }
    }

    pub fn name(&self) -> (r: &str)
        ensures
            r@ == self.name_view(),
    {
        self.name.as_str()
    }

    /// The exit code this check surfaces when it fails.
    pub fn failure_code(&self) -> (r: i32)
        ensures
            r == self.exit_code_value(),
    {
        self.exit_code
    }

    /// What runs the check.
    pub fn runner(&self) -> (r: &R)
        ensures
            *r == self.runner_value(),
    {
        &self.runner
    }
}

/// The names and failure codes of a list of checks.
pub open spec fn check_specs<R>(checks: Seq<Check<R>>) -> Seq<(Seq<char>, i32)> {
    checks.map_values(|c: Check<R>| (c.name_view(), c.exit_code_value()))
}

/// The exit code of an unhealthy report so far: the first failing check's
/// code, replaced by a later failing check's code while it is the generic
/// [`ExitCode::ERROR`].
pub open spec fn fail_exit(codes: Seq<i32>, results: Seq<CheckResultV>) -> Option<i32>
    decreases results.len(),
{
    if results.len() == 0 {
        None
    } else {
        let prev = fail_exit(codes, results.drop_last());
        let i = results.len() - 1;
        if results[i].status == CheckStatus::Fail {
            Some(
                match prev {
                    None => codes[i],
                    Some(p) => if p == ExitCode::ERROR {
                        codes[i]
                    } else {
                        p
                    },
                },
            )
        } else {
            prev
        }
    }
}

/// How many checks were skipped.
pub open spec fn skip_count(results: Seq<CheckResultV>) -> nat
    decreases results.len(),
{
    if results.len() == 0 {
        0
    } else {
        skip_count(results.drop_last()) + if results.last().status == CheckStatus::Skip {
            1nat
        } else {
            0nat
        }
    }
}

/// Healthy: no check failed.
pub open spec fn healthy(results: Seq<CheckResultV>) -> bool {
    forall|i: int| 0 <= i < results.len() ==> #[trigger] results[i].status != CheckStatus::Fail
}

/// One check's entry in the report.
pub open spec fn check_entry(name: Seq<char>, r: CheckResultV) -> JsonV {
    let base = seq![
        ("name"@, JsonV::Str(name)),
        ("ok"@, JsonV::Bool(r.status != CheckStatus::Fail)),
        ("status"@, JsonV::Str(status_text(r.status))),
    ];
    let with_detail = match r.detail {
        Some(d) => base.push(("detail"@, JsonV::Str(d))),
        None => base,
    };
    let with_fix = match r.fix {
        Some(f) => with_detail.push(("fix"@, JsonV::Str(f))),
        None => with_detail,
    };
    JsonV::Object(obj_from(with_fix))
}

pub open spec fn check_entries(names: Seq<Seq<char>>, results: Seq<CheckResultV>) -> Seq<JsonV>
    decreases results.len(),
{
    if results.len() == 0 {
        Seq::empty()
    } else {
        check_entries(names, results.drop_last()).push(
            check_entry(names[results.len() - 1], results.last()),
        )
    }
}

/// The `doctor` output for `results` of checks with `names` and failure
/// `codes`: `{ healthy, skipped, checks }`, and when unhealthy the exit code
/// chosen by [`fail_exit`].
pub open spec fn doctor_output(
    names: Seq<Seq<char>>,
    codes: Seq<i32>,
    results: Seq<CheckResultV>,
) -> CommandOutputV {
    let h = healthy(results);
    CommandOutputV {
        result: JsonV::Object(
            obj_from(
                seq![
                    ("healthy"@, JsonV::Bool(h)),
                    ("skipped"@, JsonV::Number(decimal(skip_count(results)))),
                    ("checks"@, JsonV::Array(check_entries(names, results))),
                ],
            ),
        ),
        next_actions: Seq::empty(),
        exit_code: if h {
            None
        } else {
            Some(
                match fail_exit(codes, results) {
                    Some(c) => c,
                    None => ExitCode::ERROR,
                },
            )
        },
        compact_fields: None,
    }
}

pub open spec fn results_view(v: Seq<CheckResult>) -> Seq<CheckResultV> {
    v.map_values(|r: CheckResult| r@)
}

fn check_entry_exec(name: &str, r: &CheckResult) -> (j: Json)
    ensures
        j@ == check_entry(name@, r@),
{
    let mut e: Vec<(String, Json)> = Vec::new();
    e.push((owned("name"), Json::Str(owned(name))));
    e.push((owned("ok"), Json::Bool(r.is_ok())));
    e.push((owned("status"), Json::Str(owned(r.status.as_str()))));
    if let Some(d) = &r.detail {
        e.push((owned("detail"), Json::Str(d.clone())));
    }
    if let Some(f) = &r.fix {
        e.push((owned("fix"), Json::Str(f.clone())));
    }
    proof {
        let rv = r@;
        let base = seq![
            ("name"@, JsonV::Str(name@)),
            ("ok"@, JsonV::Bool(rv.status != CheckStatus::Fail)),
            ("status"@, JsonV::Str(status_text(rv.status))),
        ];
        let with_detail = match rv.detail {
            Some(d) => base.push(("detail"@, JsonV::Str(d))),
            None => base,
        };
        let with_fix = match rv.fix {
            Some(f) => with_detail.push(("fix"@, JsonV::Str(f))),
            None => with_detail,
        };
        crate::json::lemma_jes_ext(e@, with_fix);
    }
    Json::from_entries(e)
}

/// Builds the `doctor` report from the outcome of each check, in order (see
/// [`doctor_output`]).
pub fn doctor_report<R>(checks: &[Check<R>], results: &[CheckResult]) -> (r: CommandOutput)
    requires
        checks@.len() == results@.len(),
    ensures
        r@ == doctor_output(
            check_specs(checks@).map_values(|p: (Seq<char>, i32)| p.0),
            check_specs(checks@).map_values(|p: (Seq<char>, i32)| p.1),
            results_view(results@),
        ),
{
    let ghost names = check_specs(checks@).map_values(|p: (Seq<char>, i32)| p.0);
    let ghost codes = check_specs(checks@).map_values(|p: (Seq<char>, i32)| p.1);
    let ghost rv = results_view(results@);
    let mut entries: Vec<Json> = Vec::new();
    let mut is_healthy = true;
    let mut fail: Option<i32> = None;
    let mut skipped: usize = 0;
    let mut i: usize = 0;
    while i < results.len()
        invariant
            checks@.len() == results@.len(),
            names == check_specs(checks@).map_values(|p: (Seq<char>, i32)| p.0),
            codes == check_specs(checks@).map_values(|p: (Seq<char>, i32)| p.1),
            rv == results_view(results@),
            i <= results.len(),
            jvs(entries@) == check_entries(names, rv.take(i as int)),
            is_healthy == healthy(rv.take(i as int)),
            fail == fail_exit(codes, rv.take(i as int)),
            skipped == skip_count(rv.take(i as int)),
            skipped <= i,
        decreases results.len() - i,
    {
        proof {
            assert(rv.take(i + 1).drop_last() =~= rv.take(i as int));
            assert(rv.take(i + 1).last() == results@[i as int]@);
        }
        let r = &results[i];
        let code = checks[i].failure_code();
        if r.failed() {
            is_healthy = false;
            fail = Some(
                match fail {
                    None => code,
                    Some(prev) => if prev == ExitCode::ERROR {
                        code
                    } else {
                        prev
                    },
                },
            );
        }
        if r.skipped() {
            skipped = skipped + 1;
        }
        let entry = check_entry_exec(checks[i].name(), r);
        proof {
            crate::json::lemma_jvs_push(entries@, entry);
            if r.status == CheckStatus::Fail {
                assert(!healthy(rv.take(i + 1)));
            } else if healthy(rv.take(i as int)) {
                assert forall|k: int| 0 <= k < i + 1 implies #[trigger] rv.take(i + 1)[k].status
                    != CheckStatus::Fail by {
                    if k < i {
                        assert(rv.take(i + 1)[k] == rv.take(i as int)[k]);
                    }
                }
            } else {
                let k = choose|k: int|
                    0 <= k < i && #[trigger] rv.take(i as int)[k].status == CheckStatus::Fail;
                assert(rv.take(i + 1)[k] == rv.take(i as int)[k]);
            }
        }
        entries.push(entry);
        i = i + 1;
    }
    proof {
        assert(rv.take(i as int) =~= rv);
    }
    let mut top: Vec<(String, Json)> = Vec::new();
    top.push((owned("healthy"), Json::Bool(is_healthy)));
    top.push((owned("skipped"), Json::from_u64(skipped as u64)));
    top.push((owned("checks"), Json::Array(entries)));
    proof {
        crate::json::lemma_jes_ext(
            top@,
            seq![
                ("healthy"@, JsonV::Bool(healthy(rv))),
                ("skipped"@, JsonV::Number(decimal(skip_count(rv)))),
                ("checks"@, JsonV::Array(check_entries(names, rv))),
            ],
        );
    }
    let output = CommandOutput::new(Json::from_entries(top));
    if !is_healthy {
        let code = match fail {
            Some(c) => c,
            None => ExitCode::ERROR,
        };
        output.exit_code(code)
    } else {
        output
    }
}

/// The exit code of an unhealthy report is the code of the first failing
/// check whose code is specific (not [`ExitCode::ERROR`]); when every
/// failing check uses the generic code, it is [`ExitCode::ERROR`] —
/// whatever order the checks were registered in.
pub proof fn law_doctor_prefers_specific_code(codes: Seq<i32>, results: Seq<CheckResultV>)
    requires
        codes.len() == results.len(),
    ensures
        (exists|i: int|
            0 <= i < results.len() && results[i].status == CheckStatus::Fail && codes[i]
                != ExitCode::ERROR) ==> (fail_exit(codes, results) matches Some(c) && exists|i: int|
            0 <= i < results.len() && results[i].status == CheckStatus::Fail && codes[i] == c && c
                != ExitCode::ERROR && forall|j: int|
                0 <= j < i && #[trigger] results[j].status == CheckStatus::Fail ==> codes[j]
                    == ExitCode::ERROR),
        (forall|i: int|
            0 <= i < results.len() && #[trigger] results[i].status == CheckStatus::Fail ==> codes[i]
                == ExitCode::ERROR) ==> (fail_exit(codes, results) is None || fail_exit(
            codes,
            results,
        ) == Some(ExitCode::ERROR)),
        (fail_exit(codes, results) is None) == healthy(results),
    decreases results.len(),
{
    if results.len() > 0 {
        let n = results.len() - 1;
        let rs = results.drop_last();
        let cs = codes.drop_last();
        law_doctor_prefers_specific_code(cs, rs);
        assert(fail_exit(codes, rs) == fail_exit(cs, rs)) by {
            lemma_fail_exit_prefix(codes, cs, rs);
        }
        if exists|i: int|
            0 <= i < results.len() && results[i].status == CheckStatus::Fail && codes[i]
                != ExitCode::ERROR {
            if exists|i: int|
                0 <= i < rs.len() && rs[i].status == CheckStatus::Fail && cs[i]
                    != ExitCode::ERROR {
                let c = fail_exit(cs, rs)->0;
                let w = choose|i: int|
                    0 <= i < rs.len() && rs[i].status == CheckStatus::Fail && cs[i] == c && c
                        != ExitCode::ERROR && forall|j: int|
                        0 <= j < i && #[trigger] rs[j].status == CheckStatus::Fail ==> cs[j]
                            == ExitCode::ERROR;
                assert(results[w] == rs[w] && codes[w] == cs[w]);
                assert forall|j: int|
                    0 <= j < w && #[trigger] results[j].status == CheckStatus::Fail implies codes[j]
                    == ExitCode::ERROR by {
                    assert(results[j] == rs[j] && codes[j] == cs[j]);
                }
            } else {
                assert(results[n].status == CheckStatus::Fail && codes[n] != ExitCode::ERROR) by {
                    let i = choose|i: int|
                        0 <= i < results.len() && results[i].status == CheckStatus::Fail
                            && codes[i] != ExitCode::ERROR;
                    if i < n {
                        assert(rs[i] == results[i] && cs[i] == codes[i]);
                    }
                }
                assert forall|j: int|
                    0 <= j < n && #[trigger] results[j].status == CheckStatus::Fail implies codes[j]
                    == ExitCode::ERROR by {
                    assert(rs[j] == results[j] && cs[j] == codes[j]);
                }
            }
        }
        if forall|i: int|
            0 <= i < results.len() && #[trigger] results[i].status == CheckStatus::Fail ==> codes[i]
                == ExitCode::ERROR {
            assert forall|i: int|
                0 <= i < rs.len() && #[trigger] rs[i].status == CheckStatus::Fail implies cs[i]
                == ExitCode::ERROR by {
                assert(rs[i] == results[i] && cs[i] == codes[i]);
            }
        }
        if healthy(results) {
            assert forall|i: int| 0 <= i < rs.len() implies #[trigger] rs[i].status
                != CheckStatus::Fail by {
                assert(rs[i] == results[i]);
            }
        } else {
            if results[n].status != CheckStatus::Fail {
                let i = choose|i: int|
                    0 <= i < results.len() && #[trigger] results[i].status == CheckStatus::Fail;
                assert(rs[i] == results[i]);
            }
        }
    }
}

/// [`fail_exit`] reads only the codes of the results it is given.
pub proof fn lemma_fail_exit_prefix(codes: Seq<i32>, prefix: Seq<i32>, results: Seq<CheckResultV>)
    requires
        prefix.len() >= results.len(),
        codes.len() >= results.len(),
        forall|i: int| 0 <= i < results.len() ==> codes[i] == prefix[i],
    ensures
        fail_exit(codes, results) == fail_exit(prefix, results),
    decreases results.len(),
{
    if results.len() > 0 {
        lemma_fail_exit_prefix(codes, prefix, results.drop_last());
    }
}

/// A skipped check neither makes the report unhealthy nor contributes an
/// exit code: the report's health and exit code are those of the other
/// checks.
pub proof fn law_skip_is_neutral(codes: Seq<i32>, results: Seq<CheckResultV>, i: int)
    requires
        codes.len() == results.len(),
        0 <= i < results.len(),
        results[i].status == CheckStatus::Skip,
    ensures
        healthy(results.remove(i)) == healthy(results),
        fail_exit(codes.remove(i), results.remove(i)) == fail_exit(codes, results),
    decreases results.len(),
{
    let n = results.len() - 1;
    let rest = results.remove(i);
    assert forall|k: int| 0 <= k < rest.len() implies #[trigger] rest[k] == results[
        if k < i { k } else { k + 1 }
    ] by {}
    if healthy(results) {
        assert forall|k: int| 0 <= k < rest.len() implies #[trigger] rest[k].status
            != CheckStatus::Fail by {
            assert(rest[k] == results[if k < i { k } else { k + 1 }]);
        }
    }
    if healthy(rest) {
        assert forall|k: int| 0 <= k < results.len() implies #[trigger] results[k].status
            != CheckStatus::Fail by {
            if k < i {
                assert(rest[k] == results[k]);
            } else if k > i {
                assert(rest[k - 1] == results[k]);
            }
        }
    }
    if i == n {
        assert(rest =~= results.drop_last());
        assert(codes.remove(i) =~= codes.drop_last());
        lemma_fail_exit_prefix(codes, codes.drop_last(), results.drop_last());
    } else {
        let r2 = results.drop_last();
        let c2 = codes.drop_last();
        law_skip_is_neutral(c2, r2, i);
        assert(rest.drop_last() =~= r2.remove(i));
        assert(rest.last() == results.last());
        assert(codes.remove(i)[n - 1] == codes[n]);
        lemma_fail_exit_prefix(codes.remove(i), c2.remove(i), r2.remove(i));
        lemma_fail_exit_prefix(codes, c2, r2);
    }
}

proof fn lemma_check_entries_index(names: Seq<Seq<char>>, results: Seq<CheckResultV>, i: int)
    requires
        0 <= i < results.len(),
    ensures
        check_entries(names, results).len() == results.len(),
        check_entries(names, results)[i] == check_entry(names[i], results[i]),
    decreases results.len(),
{
    lemma_check_entries_len(names, results);
    if i < results.len() - 1 {
        lemma_check_entries_index(names, results.drop_last(), i);
    }
}

proof fn lemma_check_entries_len(names: Seq<Seq<char>>, results: Seq<CheckResultV>)
    ensures
        check_entries(names, results).len() == results.len(),
    decreases results.len(),
{
    if results.len() > 0 {
        lemma_check_entries_len(names, results.drop_last());
    }
}

/// The fields of one check's entry: its name, `ok` (false exactly for a
/// failed check), its status word, and its detail and fix when given.
proof fn lemma_check_entry_fields(name: Seq<char>, r: CheckResultV)
    ensures
        check_entry(name, r) matches JsonV::Object(e) && obj_get(e, "ok"@) == Some(
            JsonV::Bool(r.status != CheckStatus::Fail),
        ) && obj_get(e, "name"@) == Some(JsonV::Str(name)) && obj_get(e, "status"@) == Some(
            JsonV::Str(status_text(r.status)),
        ) && obj_get(e, "detail"@) == (match r.detail {
            Some(d) => Some(JsonV::Str(d)),
            None => None,
        }) && obj_get(e, "fix"@) == (match r.fix {
            Some(f) => Some(JsonV::Str(f)),
            None => None,
        }),
{
    reveal_strlit("name");
    reveal_strlit("ok");
    reveal_strlit("status");
    reveal_strlit("detail");
    reveal_strlit("fix");
    let failed = r.status == CheckStatus::Fail;
    let base = seq![
        ("name"@, JsonV::Str(name)),
        ("ok"@, JsonV::Bool(!failed)),
        ("status"@, JsonV::Str(status_text(r.status))),
    ];
    let with_detail = match r.detail {
        Some(d) => base.push(("detail"@, JsonV::Str(d))),
        None => base,
    };
    let with_fix = match r.fix {
        Some(f) => with_detail.push(("fix"@, JsonV::Str(f))),
        None => with_detail,
    };
    assert("name"@.len() == 4 && "ok"@.len() == 2 && "status"@.len() == 6 && "detail"@.len() == 6
        && "fix"@.len() == 3);
    assert("status"@[0] != "detail"@[0]);
    law_obj_from_last_wins(with_fix, "ok"@);
    law_obj_from_last_wins(with_fix, "name"@);
    law_obj_from_last_wins(with_fix, "status"@);
    law_obj_from_last_wins(with_fix, "detail"@);
    law_obj_from_last_wins(with_fix, "fix"@);
    reveal_with_fuel(last_value, 6);
    assert(with_fix.len() <= 5);
}

/// In the `doctor` report, check `i`'s entry sits at position `i` of
/// `checks`, names that check, has `ok: false` exactly when the check
/// failed, and carries the check's `detail` and `fix` exactly when it has
/// them; `healthy` is false exactly when some check failed.
pub proof fn law_doctor_entries_report_each_check(
    names: Seq<Seq<char>>,
    codes: Seq<i32>,
    results: Seq<CheckResultV>,
    i: int,
)
    requires
        0 <= i < results.len(),
    ensures
        ({
            let out = doctor_output(names, codes, results).result;
            let top = out->Object_0;
            let checks = obj_get(top, "checks"@);
            let entries = checks->0->Array_0;
            let e = entries[i]->Object_0;
            &&& out is Object
            &&& checks is Some && checks->0 is Array
            &&& entries.len() == results.len()
            &&& entries[i] is Object
            &&& obj_get(e, "ok"@) is Some
            &&& (obj_get(e, "ok"@) == Some(JsonV::Bool(false)) <==> results[i].status
                == CheckStatus::Fail)
            &&& obj_get(e, "name"@) == Some(JsonV::Str(names[i]))
            &&& obj_get(e, "detail"@) == (match results[i].detail {
                Some(d) => Some(JsonV::Str(d)),
                None => None,
            })
            &&& obj_get(e, "fix"@) == (match results[i].fix {
                Some(f) => Some(JsonV::Str(f)),
                None => None,
            })
            &&& (obj_get(top, "healthy"@) == Some(JsonV::Bool(false)) <==> exists|j: int|
                0 <= j < results.len() && #[trigger] results[j].status == CheckStatus::Fail)
        }),
{
    reveal_strlit("healthy");
    reveal_strlit("skipped");
    reveal_strlit("checks");
    let h = healthy(results);
    let top = seq![
        ("healthy"@, JsonV::Bool(h)),
        ("skipped"@, JsonV::Number(decimal(skip_count(results)))),
        ("checks"@, JsonV::Array(check_entries(names, results))),
    ];
    assert("healthy"@.len() == 7 && "skipped"@.len() == 7 && "checks"@.len() == 6);
    assert("healthy"@[0] != "skipped"@[0]);
    law_obj_from_last_wins(top, "checks"@);
    law_obj_from_last_wins(top, "healthy"@);
    reveal_with_fuel(last_value, 4);
    lemma_check_entries_index(names, results, i);
    lemma_check_entry_fields(names[i], results[i]);
    if !h {
        let j = choose|j: int| 0 <= j < results.len() && results[j].status == CheckStatus::Fail;
        assert(results[j].status == CheckStatus::Fail);
    }
}

} // verus!
