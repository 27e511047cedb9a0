//! The report of a static self-audit of a command tree.
use vstd::prelude::*;
use crate::json::{Json, JsonV, obj_from};
use crate::text::owned;

verus! {

/// Severity of an [`AuditFinding`].
#[derive(Clone, Copy, Debug, PartialEq, Eq, Structural)]
pub enum AuditSeverity {
    /// Breaks the agent contract (dead next_action, unreachable command).
    Error,
    /// Degrades agent ergonomics but still works (missing usage/description).
    Warning,
}

/// A single problem discovered by an audit.
#[derive(Clone, Debug, PartialEq, Eq)]
pub struct AuditFinding {
    pub severity: AuditSeverity,
    /// Stable machine code, e.g. `DANGLING_NEXT_ACTION`, `MISSING_USAGE`.
    pub code: String,
    /// Command path the finding is attached to, space separated.
    pub command: String,
    /// Human- and agent-readable explanation.
    pub message: String,
}

/// Model of a finding.
pub ghost struct FindingV {
    pub severity: AuditSeverity,
    pub code: Seq<char>,
    pub command: Seq<char>,
    pub message: Seq<char>,
}

impl View for AuditFinding {
    type V = FindingV;

    open spec fn view(&self) -> FindingV {
        FindingV {
            severity: self.severity,
            code: self.code@,
            command: self.command@,
            message: self.message@,
        }
    }
}

pub open spec fn findings_view(v: Seq<AuditFinding>) -> Seq<FindingV> {
    v.map_values(|f: AuditFinding| f@)
}

/// How many findings have severity `s`.
pub open spec fn count_severity(v: Seq<FindingV>, s: AuditSeverity) -> nat
    decreases v.len(),
{
    if v.len() == 0 {
        0
    } else {
        count_severity(v.drop_last(), s) + if v.last().severity == s {
            1nat
        } else {
            0nat
        }
    }
}

pub proof fn lemma_count_bound(v: Seq<FindingV>, s: AuditSeverity)
    ensures
        count_severity(v, s) <= v.len(),
    decreases v.len(),
{
    if v.len() > 0 {
        lemma_count_bound(v.drop_last(), s);
    }
}

/// The result of a static audit pass.
#[derive(Clone, Debug, PartialEq, Eq)]
pub struct AuditReport {
    pub findings: Vec<AuditFinding>,
}

impl AuditReport {
    pub fn new() -> (r: AuditReport)
        ensures
            r.findings@.len() == 0,
    {
        AuditReport { findings: Vec::new() }
    }

    /// Records a finding.
    pub fn push(&mut self, severity: AuditSeverity, code: &str, command: &str, message: &str)
        ensures
            findings_view(final(self).findings@) == findings_view(old(self).findings@).push(
                FindingV { severity, code: code@, command: command@, message: message@ },
            ),
    {
        let ghost before = self.findings@;
        self.findings.push(
            AuditFinding {
                severity,
                code: owned(code),
                command: owned(command),
                message: owned(message),
            },
        );
        proof {
            assert(findings_view(self.findings@) =~= findings_view(before).push(
                FindingV { severity, code: code@, command: command@, message: message@ },
            ));
        }
    }

    fn count(&self, s: AuditSeverity) -> (r: usize)
        ensures
            r == count_severity(findings_view(self.findings@), s),
    {
        let ghost fv = findings_view(self.findings@);
        let mut n: usize = 0;
        let mut i: usize = 0;
        while i < self.findings.len()
            invariant
                fv == findings_view(self.findings@),
                i <= self.findings.len(),
                n == count_severity(fv.take(i as int), s),
            decreases self.findings.len() - i,
        {
            proof {
                assert(fv.take(i + 1).drop_last() =~= fv.take(i as int));
                lemma_count_bound(fv.take(i as int), s);
            }
            if self.findings[i].severity == s {
                n = n + 1;
            }
            i = i + 1;
        }
        proof {
            assert(fv.take(i as int) =~= fv);
        }
        n
    }

    /// Number of `Error`-severity findings.
    pub fn error_count(&self) -> (r: usize)
        ensures
            r == count_severity(findings_view(self.findings@), AuditSeverity::Error),
    {
        self.count(AuditSeverity::Error)
    }

    /// Number of `Warning`-severity findings.
    pub fn warning_count(&self) -> (r: usize)
        ensures
            r == count_severity(findings_view(self.findings@), AuditSeverity::Warning),
    {
        self.count(AuditSeverity::Warning)
    }

    /// True when there are no `Error`-severity findings; warnings are
    /// allowed.
    pub fn is_clean(&self) -> (r: bool)
        ensures
            r == (count_severity(findings_view(self.findings@), AuditSeverity::Error) == 0),
    {
        self.error_count() == 0
    }
}

/// The wire spelling of a severity.
pub open spec fn severity_text(s: AuditSeverity) -> Seq<char> {
    match s {
        AuditSeverity::Error => "error"@,
        AuditSeverity::Warning => "warning"@,
    }
}

/// One finding as JSON.
pub open spec fn finding_json(f: FindingV) -> JsonV {
    JsonV::Object(
        obj_from(
            seq![
                ("severity"@, JsonV::Str(severity_text(f.severity))),
                ("code"@, JsonV::Str(f.code)),
                ("command"@, JsonV::Str(f.command)),
                ("message"@, JsonV::Str(f.message)),
            ],
        ),
    )
}

/// The report as JSON: `{ clean, errors, warnings, findings }`.
pub open spec fn report_json(v: Seq<FindingV>) -> JsonV {
    let errors = count_severity(v, AuditSeverity::Error);
    JsonV::Object(
        obj_from(
            seq![
                ("clean"@, JsonV::Bool(errors == 0)),
                ("errors"@, JsonV::Number(crate::text::decimal(errors))),
                ("warnings"@, JsonV::Number(crate::text::decimal(count_severity(v, AuditSeverity::Warning)))),
                ("findings"@, JsonV::Array(v.map_values(|f: FindingV| finding_json(f)))),
            ],
        ),
    )
}

impl AuditReport {
    /// Renders the report as JSON (e.g. to embed in a command result).
    pub fn to_value(&self) -> (r: Json)
        ensures
            r@ == report_json(findings_view(self.findings@)),
    {
        let ghost fv = findings_view(self.findings@);
        let mut items: Vec<Json> = Vec::new();
        let mut i: usize = 0;
        while i < self.findings.len()
            invariant
                fv == findings_view(self.findings@),
                i <= self.findings.len(),
                crate::json::jvs(items@) == fv.take(i as int).map_values(|f: FindingV| finding_json(f)),
            decreases self.findings.len() - i,
        {
            let f = &self.findings[i];
            let sev = match f.severity {
                AuditSeverity::Error => "error",
                AuditSeverity::Warning => "warning",
            };
            let mut e: Vec<(String, Json)> = Vec::new();
            e.push((owned("severity"), Json::Str(owned(sev))));
            e.push((owned("code"), Json::Str(f.code.clone())));
            e.push((owned("command"), Json::Str(f.command.clone())));
            e.push((owned("message"), Json::Str(f.message.clone())));
            proof {
                crate::json::lemma_jes_ext(
                    e@,
                    seq![
                        ("severity"@, JsonV::Str(severity_text(f.severity))),
                        ("code"@, JsonV::Str(f.code@)),
                        ("command"@, JsonV::Str(f.command@)),
                        ("message"@, JsonV::Str(f.message@)),
                    ],
                );
            }
            let j = Json::from_entries(e);
            proof {
                crate::json::lemma_jvs_push(items@, j);
                assert(fv.take(i + 1) =~= fv.take(i as int).push(fv[i as int]));
                assert(fv.take(i + 1).map_values(|f: FindingV| finding_json(f)) =~= fv.take(
                    i as int,
                ).map_values(|f: FindingV| finding_json(f)).push(finding_json(fv[i as int])));
            }
            items.push(j);
            i = i + 1;
        }
        proof {
            assert(fv.take(i as int) =~= fv);
        }
        let errors = self.error_count();
        let warnings = self.warning_count();
        let mut top: Vec<(String, Json)> = Vec::new();
        top.push((owned("clean"), Json::Bool(errors == 0)));
        top.push((owned("errors"), Json::from_u64(errors as u64)));
        top.push((owned("warnings"), Json::from_u64(warnings as u64)));
        let ghost iv = crate::json::jvs(items@);
        top.push((owned("findings"), Json::Array(items)));
        proof {
            crate::json::lemma_jes_ext(
                top@,
                seq![
                    ("clean"@, JsonV::Bool(errors == 0)),
                    ("errors"@, JsonV::Number(crate::text::decimal(errors as nat))),
                    ("warnings"@, JsonV::Number(crate::text::decimal(warnings as nat))),
                    ("findings"@, JsonV::Array(iv)),
                ],
            );
        }
        Json::from_entries(top)
    }
}

/// A report is clean exactly when none of its findings is an error.
pub proof fn law_clean_iff_no_error(v: Seq<FindingV>)
    ensures
        (count_severity(v, AuditSeverity::Error) == 0) <==> (forall|i: int|
            0 <= i < v.len() ==> #[trigger] v[i].severity != AuditSeverity::Error),
    decreases v.len(),
{
    if v.len() > 0 {
        law_clean_iff_no_error(v.drop_last());
        if count_severity(v, AuditSeverity::Error) == 0 {
            assert forall|i: int| 0 <= i < v.len() implies #[trigger] v[i].severity
                != AuditSeverity::Error by {
                if i < v.len() - 1 {
                    assert(v.drop_last()[i] == v[i]);
                }
            }
        } else {
            if v.last().severity != AuditSeverity::Error {
                let j = choose|j: int|
                    0 <= j < v.drop_last().len() && v.drop_last()[j].severity
                        == AuditSeverity::Error;
                assert(v[j] == v.drop_last()[j]);
            }
        }
    }
}

} // verus!
