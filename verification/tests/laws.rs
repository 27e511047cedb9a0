use agcli::audit::AuditSeverity;
use agcli::cli::{AgentCli, Command, Dispatch};
use agcli::doctor::{Check, CheckResult, doctor_report};
use agcli::envelope::{
    ActionParam, Envelope, ErrorEnvelope, ExitCode, NextAction, SuccessEnvelope, normalize_exit_code,
};
use agcli::json::{Json, compact};
use agcli::request::ExecutionContext;
use agcli::usage::apply_select_flag;

#[test]
fn exit_codes_are_masked_to_process_status() {
    assert_eq!(normalize_exit_code(256 + 5), 5);
    assert_eq!(normalize_exit_code(-1), 255);
    assert_eq!(normalize_exit_code(7), 7);
    let e = SuccessEnvelope::new("cmd", Json::Null, vec![], 0).exit_code(261);
    assert_eq!(e.exit_code, 5);
    let e = ErrorEnvelope::new("cmd", "m", "C", "fix", vec![], 0).exit_code(7);
    assert_eq!(e.exit_code, 7);
    assert_eq!(Envelope::Error(e).exit_code(), 7);
}

#[test]
fn framework_errors_are_usage_errors() {
    let cli: AgentCli<u8> = AgentCli::new("app", "x")
        .command(Command::new("db", "db").subcommand(Command::new("m", "m").handler(0)))
        .command(Command::new("orphan", "no handler"));
    for argv in [
        vec!["app", "--=x"],
        vec!["app", "nope"],
        vec!["app", "db", "nope"],
        vec!["app", "orphan"],
        vec!["app", "nope", "--help"],
    ] {
        match cli.dispatch(&argv, 0) {
            Dispatch::Done(Envelope::Error(e)) => assert_eq!(e.exit_code, ExitCode::USAGE, "{argv:?}"),
            _ => panic!("expected a usage error for {argv:?}"),
        }
    }
}

#[test]
fn select_never_wipes_an_object() {
    let value = Json::from_entries(vec![("a".to_string(), Json::from_u64(1))]);
    let out = apply_select_flag(value, "zzz");
    assert_eq!(out.get("a"), Some(&Json::from_u64(1)));
    assert!(out.get("select_warning").is_some());
    let scalar = apply_select_flag(Json::from_u64(3), "a");
    assert_eq!(scalar, Json::from_u64(3));
}

#[test]
fn context_reads_back_what_was_written() {
    let mut ctx = ExecutionContext::new();
    ctx.set("k", Json::from_u64(1));
    ctx.set("j", Json::from_str("x"));
    ctx.set("k", Json::from_u64(2));
    assert_eq!(ctx.get("k"), Some(&Json::from_u64(2)));
    assert_eq!(ctx.get("j"), Some(&Json::from_str("x")));
    assert_eq!(ctx.remove("k"), Some(Json::from_u64(2)));
    assert_eq!(ctx.get("k"), None);
    assert_eq!(ctx.memory().len(), 1);
}

#[test]
fn clean_report_has_no_error_findings() {
    let cli: AgentCli<u8> = AgentCli::new("app", "x").command(Command::new("a", "").usage("app a").handler(0));
    let report = cli.audit();
    assert!(report.is_clean());
    assert!(report.findings.iter().all(|f| f.severity != AuditSeverity::Error));
    let value = report.to_value();
    assert_eq!(value.get("clean"), Some(&Json::Bool(true)));
    assert_eq!(value.get("warnings"), Some(&Json::from_u64(1)));
}

#[test]
fn a_skipped_check_is_neutral_in_the_doctor_report() {
    let with_skip = vec![Check::new("auth", ()).exit_code(ExitCode::AUTH), Check::new("bucket", ()).exit_code(ExitCode::API)];
    let (result, _, exit, _) = doctor_report(
        &with_skip,
        &[CheckResult::fail("no token", "Set API_TOKEN"), CheckResult::skip("no bucket configured")],
    )
    .into_parts();
    let alone = vec![Check::new("auth", ()).exit_code(ExitCode::AUTH)];
    let (alone_result, _, alone_exit, _) =
        doctor_report(&alone, &[CheckResult::fail("no token", "Set API_TOKEN")]).into_parts();
    assert_eq!(exit, alone_exit);
    assert_eq!(exit, Some(ExitCode::AUTH));
    assert_eq!(result.get("healthy"), alone_result.get("healthy"));
    assert_eq!(result.get("skipped"), Some(&Json::from_u64(1)));
    assert_eq!(alone_result.get("skipped"), Some(&Json::from_u64(0)));
}

#[test]
fn wire_round_trip_gives_the_envelope_back() {
    let action = NextAction::new("app get <id>", "Fetch one")
        .with_param("id", ActionParam::new().description("Record id").required(true));
    let before = ErrorEnvelope::new("app get", "gone", "NOT_FOUND", "Check the id", vec![action], 1_767_225_599)
        .exit_code(ExitCode::NOT_FOUND)
        .schema_version("v3");
    let back = ErrorEnvelope::from_value(&before.to_value()).expect("reads back");
    assert_eq!(back, before);
    let env = Envelope::Error(back);
    assert_eq!(Envelope::from_value(&env.to_value()).expect("reads back"), env);
}

#[test]
fn compacting_twice_changes_nothing() {
    let v = Json::from_entries(vec![
        ("outer".to_string(), Json::from_entries(vec![("inner".to_string(), Json::Null)])),
        ("keep".to_string(), Json::Bool(false)),
        ("zero".to_string(), Json::from_u64(0)),
        ("list".to_string(), Json::Array(vec![Json::Null, Json::Array(vec![])])),
    ]);
    let once = compact(&v);
    assert_eq!(compact(&once), once);
    assert!(once.get("outer").is_none());
    assert_eq!(once.get("keep"), Some(&Json::Bool(false)));
    assert!(matches!(once.get("list"), Some(Json::Array(a)) if a.len() == 2));
}

#[test]
fn compact_leaves_no_empty_field_at_any_depth() {
    let v = Json::Array(vec![
        Json::from_entries(vec![
            ("a".to_string(), Json::from_entries(vec![("b".to_string(), Json::Array(vec![]))])),
            ("c".to_string(), Json::from_str("")),
        ]),
        Json::Null,
    ]);
    let once = compact(&v);
    let Json::Array(items) = &once else { panic!("array") };
    assert_eq!(items.len(), 2);
    assert_eq!(items[0], Json::from_entries(vec![("c".to_string(), Json::from_str(""))]));
    assert_eq!(items[1], Json::Null);
}

#[test]
fn number_text_is_checked() {
    for good in ["0", "-7", "42", "8.0", "1e3", "-0.5E+10"] {
        assert!(Json::number(good).is_some(), "{good}");
    }
    for bad in ["", "-", "01", "1.", ".5", "1e", "1e+", "+1", "NaN", "inf", "1 "] {
        assert!(Json::number(bad).is_none(), "{bad}");
    }
}
