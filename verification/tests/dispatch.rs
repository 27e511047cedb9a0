use agcli::cli::{AgentCli, Command, Dispatch, HandlerOutcome};
use agcli::doctor::{Check, CheckResult, doctor_report};
use agcli::envelope::{Envelope, ExitCode, NextAction};
use agcli::json::Json;
use agcli::request::{CommandError, CommandOutput};

fn obj(entries: Vec<(&str, Json)>) -> Json {
    Json::from_entries(entries.into_iter().map(|(k, v)| (k.to_string(), v)).collect())
}

fn sample_cli() -> AgentCli<u8> {
    AgentCli::new("wokhei", "Agent-first Nostr list CLI")
        .version("0.1.0")
        .command(Command::new("status", "Show relay and key status").usage("wokhei status").handler(0))
        .command(
            Command::new("gateway", "Gateway operations").subcommand(
                Command::new("stream", "Stream gateway events")
                    .usage("wokhei gateway stream [--follow]")
                    .handler(1),
            ),
        )
}

fn rich_result() -> Json {
    obj(vec![
        ("id", Json::from_u64(1)),
        ("name", Json::from_str("widget")),
        ("note", Json::Null),
        ("tags", Json::Array(vec![])),
        ("body", Json::from_str("a very long body field")),
    ])
}

fn rich_cli() -> AgentCli<u8> {
    AgentCli::new("app", "Rich output CLI").command(Command::new("get", "Get a record").usage("app get <id>").handler(0))
}

fn run(cli: &AgentCli<u8>, argv: &[&str], outcome: fn() -> HandlerOutcome) -> Envelope {
    match cli.dispatch(argv, 0) {
        Dispatch::Done(e) => e,
        Dispatch::Run(plan) => cli.finish(plan, outcome(), 0),
    }
}

fn ok_rich() -> HandlerOutcome {
    HandlerOutcome::Output(CommandOutput::new(rich_result()))
}

fn unreachable_handler() -> HandlerOutcome {
    panic!("no handler should run")
}

#[test]
fn root_returns_self_documenting_tree() {
    let cli = sample_cli();
    let env = run(&cli, &["wokhei"], unreachable_handler);
    let Envelope::Success(s) = env else { panic!("expected success") };
    assert!(matches!(s.result.get("commands"), Some(Json::Array(_))));
    assert!(!s.next_actions.is_empty());
    assert_eq!(s.exit_code, 0);
    assert!(matches!(s.result.get("agent_flags"), Some(Json::Array(a)) if a.len() == 8));
}

#[test]
fn unknown_command_returns_usage_error_with_valid_names() {
    let cli = sample_cli();
    let env = run(&cli, &["wokhei", "bogus"], unreachable_handler);
    let Envelope::Error(e) = env else { panic!("expected error") };
    assert_eq!(e.error.code, "UNKNOWN_COMMAND");
    assert_eq!(e.fix, "Valid commands: gateway, status.");
    assert!(!e.next_actions.is_empty());
    assert_eq!(e.exit_code, ExitCode::USAGE);
}

#[test]
fn unknown_subcommand_suggests_typo() {
    let cli = sample_cli();
    let env = run(&cli, &["wokhei", "gateway", "streem"], unreachable_handler);
    let Envelope::Error(e) = env else { panic!("expected error") };
    assert_eq!(e.error.code, "UNKNOWN_SUBCOMMAND");
    assert_eq!(e.fix, "Did you mean `stream`? Valid subcommands: stream.");
}

#[test]
fn help_returns_command_document() {
    let cli = sample_cli();
    let env = run(&cli, &["wokhei", "gateway", "--help"], unreachable_handler);
    let Envelope::Success(s) = env else { panic!("expected success") };
    assert_eq!(s.result.get("name"), Some(&Json::from_str("gateway")));
    assert!(matches!(s.result.get("subcommands"), Some(Json::Array(a)) if a.len() == 1));
    let env = run(&cli, &["wokhei", "gateway", "bogus", "--help"], unreachable_handler);
    let Envelope::Error(e) = env else { panic!("expected error") };
    assert_eq!(e.error.code, "UNKNOWN_SUBCOMMAND");
}

#[test]
fn parse_error_carries_usage_exit_code() {
    let cli = rich_cli();
    let env = run(&cli, &["app", "--=oops"], unreachable_handler);
    let Envelope::Error(e) = env else { panic!("expected error") };
    assert_eq!(e.error.code, "PARSE_ERROR");
    assert_eq!(e.error.message, "invalid flag syntax: --=oops");
    assert_eq!(e.command, "app --=oops");
    assert_eq!(e.exit_code, ExitCode::USAGE);
}

#[test]
fn select_projects_result_fields() {
    let cli = rich_cli();
    let env = run(&cli, &["app", "get", "1", "--select", "id,name"], ok_rich);
    let Envelope::Success(s) = env else { panic!("expected success") };
    assert_eq!(s.result, obj(vec![("id", Json::from_u64(1)), ("name", Json::from_str("widget"))]));
}

#[test]
fn compact_drops_null_and_empty_fields() {
    let cli = rich_cli();
    let env = run(&cli, &["app", "get", "1", "--compact"], ok_rich);
    let Envelope::Success(s) = env else { panic!("expected success") };
    assert_eq!(
        s.result,
        obj(vec![
            ("id", Json::from_u64(1)),
            ("name", Json::from_str("widget")),
            ("body", Json::from_str("a very long body field")),
        ])
    );
}

#[test]
fn quiet_drops_next_actions() {
    let cli = rich_cli();
    let env = run(&cli, &["app", "get", "1", "--quiet"], ok_rich);
    let Envelope::Success(s) = env else { panic!("expected success") };
    assert!(s.next_actions.is_empty());
}

#[test]
fn bare_select_keeps_result_and_warns() {
    let cli = rich_cli();
    let env = run(&cli, &["app", "get", "1", "--select"], ok_rich);
    let Envelope::Success(s) = env else { panic!("expected success") };
    assert_eq!(s.result.get("id"), Some(&Json::from_u64(1)));
    assert!(matches!(s.result.get("select_warning"), Some(Json::Str(_))));
}

#[test]
fn typod_select_keeps_result_and_lists_fields() {
    let cli = rich_cli();
    let env = run(&cli, &["app", "get", "1", "--select=naem"], ok_rich);
    let Envelope::Success(s) = env else { panic!("expected success") };
    assert_eq!(s.result.get("name"), Some(&Json::from_str("widget")));
    assert_eq!(
        s.result.get("select_warning"),
        Some(&Json::from_str(
            "--select=naem matched no fields. Available top-level fields: body, id, name, note, tags. Returning the full result; re-run --select with a valid field name."
        ))
    );
}

#[test]
fn reserved_flags_can_be_disabled() {
    let cli = rich_cli().reserved_flags(false);
    let env = run(&cli, &["app", "get", "1", "--select", "id"], ok_rich);
    let Envelope::Success(s) = env else { panic!("expected success") };
    assert!(s.result.get("body").is_some());
    let env = run(&cli, &["app"], unreachable_handler);
    let Envelope::Success(s) = env else { panic!("expected success") };
    assert!(s.result.get("agent_flags").is_none());
}

#[test]
fn bool_flags_follow_the_resolved_command() {
    let cli: AgentCli<u8> = AgentCli::new("app", "Conflicting flag schemas")
        .command(Command::new("cmd_a", "Bool format").usage("app cmd_a [path] [--format]").handler(0))
        .command(Command::new("cmd_b", "Value format").usage("app cmd_b [--format=<format>]").handler(1));
    let Dispatch::Run(plan) = cli.dispatch(&["app", "cmd_b", "--format", "json"], 0) else {
        panic!("expected a run")
    };
    assert_eq!(plan.invocation.flag("format"), Some("json"));
    assert!(plan.remaining.is_empty());
    let Dispatch::Run(plan) = cli.dispatch(&["app", "cmd_a", "--format", "./payload.json"], 0) else {
        panic!("expected a run")
    };
    assert_eq!(plan.invocation.flag("format"), Some("true"));
    assert_eq!(plan.remaining, vec!["./payload.json".to_string()]);
    assert_eq!(plan.command.handler_ref(), Some(&0));
}

#[test]
fn handler_error_exit_code_is_honored() {
    let cli: AgentCli<u8> = AgentCli::new("app", "x").command(Command::new("find", "find").handler(0));
    let env = run(&cli, &["app", "find"], || {
        HandlerOutcome::Failed(CommandError::new("nope", "NOT_FOUND", "Check the id").exit_code(ExitCode::NOT_FOUND))
    });
    assert_eq!(env.exit_code(), ExitCode::NOT_FOUND);
    let env = run(&cli, &["app", "find"], || HandlerOutcome::Failed(CommandError::new("kaboom", "BOOM", "retry")));
    assert_eq!(env.exit_code(), ExitCode::ERROR);
    let Envelope::Error(e) = env else { panic!("expected error") };
    assert_eq!(e.fix, "retry");
    assert_eq!(e.next_actions.len(), 2);
}

#[test]
fn handler_panic_returns_error_envelope() {
    let cli: AgentCli<u8> = AgentCli::new("app", "x").command(Command::new("boom", "boom").usage("app boom").handler(0));
    let env = run(&cli, &["app", "boom"], || HandlerOutcome::Panicked("simulated handler bug".to_string()));
    let Envelope::Error(e) = env else { panic!("expected error") };
    assert_eq!(e.error.code, "HANDLER_PANIC");
    assert_eq!(e.error.message, "handler panicked: simulated handler bug");
    assert!(!e.next_actions.is_empty());
    assert_eq!(e.exit_code, ExitCode::ERROR);
}

#[test]
fn root_field_cannot_shadow_core_keys() {
    let cli: AgentCli<u8> = AgentCli::new("test", "Test CLI")
        .version("1.0.0")
        .root_field("description", Json::from_str("hacked"))
        .root_field("version", Json::from_str("hacked"))
        .root_field("commands", Json::from_str("hacked"))
        .root_field("extra", Json::from_u64(1));
    let env = run(&cli, &["test"], unreachable_handler);
    let Envelope::Success(s) = env else { panic!("expected success") };
    assert_eq!(s.result.get("description"), Some(&Json::from_str("Test CLI")));
    assert_eq!(s.result.get("version"), Some(&Json::from_str("1.0.0")));
    assert!(matches!(s.result.get("commands"), Some(Json::Array(_))));
    assert_eq!(s.result.get("extra"), Some(&Json::from_u64(1)));
}

#[test]
fn doctor_prefers_specific_exit_code_and_is_not_projected() {
    let checks = vec![
        Check::new("connectivity", 0u8),
        Check::new("auth", 1u8).exit_code(ExitCode::AUTH),
    ];
    let results = vec![
        CheckResult::fail("down", "Check the network"),
        CheckResult::fail("no token", "Set API_TOKEN"),
    ];
    let output = doctor_report(&checks, &results);
    let (result, _, exit, _) = output.into_parts();
    assert_eq!(exit, Some(ExitCode::AUTH));
    assert_eq!(result.get("healthy"), Some(&Json::Bool(false)));

    let cli: AgentCli<u8> = AgentCli::new("app", "x").doctor(9);
    let Dispatch::Run(plan) = cli.dispatch(&["app", "doctor", "--select=healthy"], 0) else {
        panic!("expected a run")
    };
    let report = doctor_report(&checks, &results);
    let env = cli.finish(plan, HandlerOutcome::Output(report), 0);
    let Envelope::Success(s) = env else { panic!("expected success") };
    assert!(matches!(s.result.get("checks"), Some(Json::Array(a)) if a.len() == 2));
    assert_eq!(s.exit_code, ExitCode::AUTH);
}

#[test]
fn doctor_skip_keeps_report_healthy() {
    let checks = vec![Check::new("optional", 0u8).exit_code(ExitCode::API)];
    let results = vec![CheckResult::skip("no credentials configured")];
    let (result, _, exit, _) = doctor_report(&checks, &results).into_parts();
    assert_eq!(exit, None);
    assert_eq!(result.get("healthy"), Some(&Json::Bool(true)));
    let Some(Json::Array(entries)) = result.get("checks") else { panic!("checks") };
    assert_eq!(entries[0].get("status"), Some(&Json::from_str("skip")));
    assert_eq!(entries[0].get("ok"), Some(&Json::Bool(true)));
}

#[test]
fn list_truncated_emits_bounded_result() {
    let (result, ..) = CommandOutput::list_truncated(vec![obj(vec![("id", Json::from_u64(1))])], 50).into_parts();
    assert_eq!(result.get("count"), Some(&Json::from_u64(1)));
    assert_eq!(result.get("total"), Some(&Json::from_u64(50)));
    assert_eq!(result.get("truncated"), Some(&Json::Bool(true)));
    assert_eq!(
        result.get("guidance"),
        Some(&Json::from_str("Showing 1 of 50 results. Narrow with --limit, --select, or filter flags."))
    );
    let (full, ..) = CommandOutput::list(vec![Json::Null, Json::Null]).into_parts();
    assert_eq!(full.get("truncated"), Some(&Json::Bool(false)));
    assert!(full.get("guidance").is_none());
}

#[test]
fn compact_honors_high_gravity_allowlist() {
    let cli: AgentCli<u8> = AgentCli::new("app", "x").command(Command::new("get", "get").handler(0));
    let env = run(&cli, &["app", "get", "--compact"], || {
        HandlerOutcome::Output(
            CommandOutput::new(obj(vec![
                ("id", Json::from_u64(1)),
                ("name", Json::from_str("x")),
                ("body", Json::from_str("huge")),
            ]))
            .compact_fields(vec!["id".to_string(), "name".to_string()]),
        )
    });
    let Envelope::Success(s) = env else { panic!("expected success") };
    assert_eq!(s.result, obj(vec![("id", Json::from_u64(1)), ("name", Json::from_str("x"))]));
}

#[test]
fn default_actions_use_declared_ones() {
    let cli: AgentCli<u8> = AgentCli::new("app", "x").command(
        Command::new("a", "A").usage("app a").handler(0).default_next_action(NextAction::new("app a", "again")),
    );
    let env = run(&cli, &["app", "a"], || HandlerOutcome::Output(CommandOutput::new(Json::Null)));
    let Envelope::Success(s) = env else { panic!("expected success") };
    assert_eq!(s.next_actions.len(), 1);
    assert_eq!(s.next_actions[0].description, "again");
}
