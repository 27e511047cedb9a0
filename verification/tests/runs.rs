use agcli::cli::{AgentCli, Command, Dispatch, Execution, HandlerOutcome};
use agcli::doctor::{Check, CheckResult, doctor_report};
use agcli::envelope::{Envelope, ExitCode, NextAction};
use agcli::json::Json;
use agcli::request::{CommandError, CommandOutput, CommandRequest};

/// A command handler run synchronously on the request it is given.
type Handler = fn(&CommandRequest<'_>) -> HandlerOutcome;

fn cmd(name: &str, description: &str) -> Command<Handler> {
    Command::new(name, description)
}

fn obj(entries: Vec<(&str, Json)>) -> Json {
    Json::from_entries(entries.into_iter().map(|(k, v)| (k.to_string(), v)).collect())
}

/// Runs `argv` through `cli`: dispatch, then the planned command's handler,
/// then the finishing step.
fn run_argv(cli: &AgentCli<Handler>, argv: &[&str]) -> Execution {
    let envelope = match cli.dispatch(argv, 0) {
        Dispatch::Done(e) => e,
        Dispatch::Run(plan) => {
            let outcome = {
                let handler = plan.command.handler_ref().expect("a planned command has a handler");
                let request = CommandRequest::new(&plan.invocation, &plan.path, &plan.remaining);
                handler(&request)
            };
            cli.finish(plan, outcome, 0)
        }
    };
    Execution::new(envelope)
}

fn success(run: &Execution) -> &agcli::envelope::SuccessEnvelope {
    match run.envelope() {
        Envelope::Success(s) => s,
        other => panic!("expected success envelope, got: {other:?}"),
    }
}

fn failure(run: &Execution) -> &agcli::envelope::ErrorEnvelope {
    match run.envelope() {
        Envelope::Error(e) => e,
        other => panic!("expected error envelope, got: {other:?}"),
    }
}

fn ok(result: Json) -> HandlerOutcome {
    HandlerOutcome::Output(CommandOutput::new(result))
}

fn text(s: &str) -> Json {
    Json::from_str(s)
}

fn sample_cli() -> AgentCli<Handler> {
    AgentCli::new("wokhei", "Agent-first Nostr list CLI")
        .version("0.1.0")
        .command(cmd("status", "Show relay and key status").usage("wokhei status").handler(|_req| {
            HandlerOutcome::Output(
                CommandOutput::new(obj(vec![("healthy", Json::Bool(true)), ("keys_configured", Json::Bool(true))]))
                    .next_action(NextAction::new("wokhei status", "Re-check current status")),
            )
        }))
        .command(
            cmd("gateway", "Gateway operations").subcommand(
                cmd("stream", "Stream gateway events")
                    .usage("wokhei gateway stream [--follow]")
                    .handler(|_req| ok(obj(vec![("stream", text("ready"))]))),
            ),
        )
}

fn rich_cli() -> AgentCli<Handler> {
    AgentCli::new("app", "Rich output CLI").command(cmd("get", "Get a record").usage("app get <id>").handler(
        |_req| {
            ok(obj(vec![
                ("id", Json::from_u64(1)),
                ("name", text("widget")),
                ("note", Json::Null),
                ("tags", Json::Array(vec![])),
                ("body", text("a very long body field")),
            ]))
        },
    ))
}

#[test]
fn root_returns_self_documenting_json_tree() {
    let run = run_argv(&sample_cli(), &["wokhei"]);
    let envelope = success(&run);
    assert!(matches!(envelope.result.get("commands"), Some(Json::Array(_))));
    assert!(!envelope.next_actions.is_empty());
    assert_eq!(run.exit_code(), 0);
}

#[test]
fn command_success_returns_envelope() {
    let run = run_argv(&sample_cli(), &["wokhei", "status"]);
    let envelope = success(&run);
    assert_eq!(envelope.result.get("healthy"), Some(&Json::Bool(true)));
    assert!(!envelope.next_actions.is_empty());
}

#[test]
fn unknown_command_returns_error_with_fix() {
    let run = run_argv(&sample_cli(), &["wokhei", "bogus"]);
    let envelope = failure(&run);
    assert_eq!(envelope.error.code, "UNKNOWN_COMMAND");
    assert!(!envelope.fix.is_empty());
    assert!(!envelope.next_actions.is_empty());
    assert_eq!(run.exit_code(), ExitCode::USAGE);
}

#[test]
fn help_returns_json_not_plain_text() {
    let run = run_argv(&sample_cli(), &["wokhei", "gateway", "--help"]);
    let envelope = success(&run);
    assert_eq!(envelope.result.get("name"), Some(&text("gateway")));
    assert!(matches!(envelope.result.get("subcommands"), Some(Json::Array(_))));
}

#[test]
fn command_error_uses_handler_code_and_fix() {
    let cli: AgentCli<Handler> = AgentCli::new("wokhei", "Agent-first Nostr list CLI").command(
        cmd("publish", "Publish JSON event").handler(|_req| {
            HandlerOutcome::Failed(CommandError::new(
                "invalid event json",
                "INVALID_EVENT",
                "Pass valid event JSON and required tags.",
            ))
        }),
    );
    let run = run_argv(&cli, &["wokhei", "publish"]);
    let envelope = failure(&run);
    assert_eq!(envelope.error.code, "INVALID_EVENT");
    assert_eq!(envelope.fix, "Pass valid event JSON and required tags.");
}

#[test]
fn run_argv_honors_usage_string_bool_flags() {
    let cli: AgentCli<Handler> = AgentCli::new("agplan", "Plan submission tool").command(
        cmd("submit", "Submit a plan").usage("agplan submit [path] [--title=<title>] [--no-git]").handler(
            |req| {
                let path = req.arg(0).unwrap_or("").to_string();
                let no_git = req.flag("no-git").is_some();
                ok(obj(vec![("path", Json::Str(path)), ("no_git", Json::Bool(no_git))]))
            },
        ),
    );
    let run = run_argv(&cli, &["agplan", "submit", "--no-git", "./plan.html"]);
    let envelope = success(&run);
    assert_eq!(envelope.result.get("path"), Some(&text("./plan.html")));
    assert_eq!(envelope.result.get("no_git"), Some(&Json::Bool(true)));
}

#[test]
fn run_argv_scopes_bool_flags_to_resolved_command() {
    let cli: AgentCli<Handler> = AgentCli::new("app", "Conflicting flag schemas")
        .command(cmd("cmd_a", "Bool format").usage("app cmd_a [--format]").handler(|_req| ok(obj(vec![]))))
        .command(cmd("cmd_b", "Value format").usage("app cmd_b [--format=<format>]").handler(|req| {
            let format = req.flag("format").unwrap_or("").to_string();
            let positionals = req.positionals().iter().map(|p| Json::Str(p.clone())).collect();
            ok(obj(vec![("format", Json::Str(format)), ("positionals", Json::Array(positionals))]))
        }));
    let run = run_argv(&cli, &["app", "cmd_b", "--format", "json"]);
    let envelope = success(&run);
    assert_eq!(envelope.result.get("format"), Some(&text("json")));
    assert_eq!(envelope.result.get("positionals"), Some(&Json::Array(vec![])));
}

#[test]
fn run_argv_still_honors_bool_flag_when_command_declares_it() {
    let cli: AgentCli<Handler> = AgentCli::new("app", "Conflicting flag schemas")
        .command(cmd("cmd_a", "Bool format").usage("app cmd_a [path] [--format]").handler(|req| {
            let format = match req.flag("format") {
                Some(v) => text(v),
                None => Json::Null,
            };
            let path = req.arg(0).unwrap_or("").to_string();
            ok(obj(vec![("format", format), ("path", Json::Str(path))]))
        }))
        .command(
            cmd("cmd_b", "Value format").usage("app cmd_b [--format=<format>]").handler(|_req| ok(obj(vec![]))),
        );
    let run = run_argv(&cli, &["app", "cmd_a", "--format", "./payload.json"]);
    let envelope = success(&run);
    assert_eq!(envelope.result.get("format"), Some(&text("true")));
    assert_eq!(envelope.result.get("path"), Some(&text("./payload.json")));
}

#[test]
fn run_argv_supports_space_separated_value_flags() {
    let cli: AgentCli<Handler> = AgentCli::new("agplan", "Plan submission tool").command(
        cmd("submit", "Submit a plan").usage("agplan submit [path] [--title=<title>]").handler(|req| {
            let title = req.flag("title").unwrap_or("").to_string();
            ok(obj(vec![("title", Json::Str(title))]))
        }),
    );
    let run = run_argv(&cli, &["agplan", "submit", "./plan.html", "--title", "My Title"]);
    assert_eq!(success(&run).result.get("title"), Some(&text("My Title")));
}

#[test]
fn help_with_trailing_unknown_returns_error() {
    let run = run_argv(&sample_cli(), &["wokhei", "gateway", "bogus", "--help"]);
    assert_eq!(failure(&run).error.code, "UNKNOWN_SUBCOMMAND");
}

#[test]
fn unknown_subcommand_fix_inlines_valid_names() {
    let run = run_argv(&sample_cli(), &["wokhei", "gateway", "list"]);
    let envelope = failure(&run);
    assert_eq!(envelope.error.code, "UNKNOWN_SUBCOMMAND");
    assert!(envelope.fix.contains("Valid subcommands: stream."), "got: {}", envelope.fix);
    assert!(!envelope.fix.contains("Did you mean"));
}

#[test]
fn unknown_subcommand_fix_suggests_typo() {
    let run = run_argv(&sample_cli(), &["wokhei", "gateway", "streem"]);
    let envelope = failure(&run);
    assert_eq!(envelope.error.code, "UNKNOWN_SUBCOMMAND");
    assert!(envelope.fix.contains("Did you mean `stream`?"), "got: {}", envelope.fix);
}

#[test]
fn unknown_command_fix_inlines_valid_names() {
    let run = run_argv(&sample_cli(), &["wokhei", "bogus"]);
    let envelope = failure(&run);
    assert_eq!(envelope.error.code, "UNKNOWN_COMMAND");
    assert!(envelope.fix.contains("Valid commands:"));
    assert!(envelope.fix.contains("gateway"));
    assert!(envelope.fix.contains("status"));
}

#[test]
fn handler_error_without_exit_code_defaults_to_one() {
    let cli: AgentCli<Handler> = AgentCli::new("app", "x").command(
        cmd("boom", "boom").handler(|_req| HandlerOutcome::Failed(CommandError::new("kaboom", "BOOM", "retry"))),
    );
    let run = run_argv(&cli, &["app", "boom"]);
    assert_eq!(run.exit_code(), ExitCode::ERROR);
}

#[test]
fn standard_flag_accessors_read_convention_flags() {
    let cli: AgentCli<Handler> = AgentCli::new("app", "x").command(cmd("run", "run").handler(|req| {
        ok(obj(vec![
            ("dry_run", Json::Bool(req.dry_run())),
            ("assume_yes", Json::Bool(req.assume_yes())),
            ("no_cache", Json::Bool(req.no_cache())),
            ("wants_stdin", Json::Bool(req.wants_stdin())),
        ]))
    }));
    let run = run_argv(&cli, &["app", "run", "--dry-run", "--no-input", "--no-cache", "--stdin"]);
    let envelope = success(&run);
    assert_eq!(envelope.result.get("dry_run"), Some(&Json::Bool(true)));
    assert_eq!(envelope.result.get("assume_yes"), Some(&Json::Bool(true)));
    assert_eq!(envelope.result.get("no_cache"), Some(&Json::Bool(true)));
    assert_eq!(envelope.result.get("wants_stdin"), Some(&Json::Bool(true)));
}

#[test]
fn reserved_bool_flag_does_not_swallow_positional() {
    let cli: AgentCli<Handler> = AgentCli::new("app", "x").command(cmd("get", "get").handler(|req| {
        let id = req.arg(0).unwrap_or("none").to_string();
        ok(obj(vec![("id", Json::Str(id)), ("dry", Json::Bool(req.dry_run()))]))
    }));
    let run = run_argv(&cli, &["app", "get", "--dry-run", "1"]);
    assert_eq!(success(&run).result, obj(vec![("id", text("1")), ("dry", Json::Bool(true))]));
}

#[test]
fn list_truncated_emits_bounded_envelope() {
    let cli: AgentCli<Handler> = AgentCli::new("app", "x").command(cmd("ls", "list").handler(|_req| {
        HandlerOutcome::Output(CommandOutput::list_truncated(vec![obj(vec![("id", Json::from_u64(1))])], 50))
    }));
    let run = run_argv(&cli, &["app", "ls"]);
    let envelope = success(&run);
    assert_eq!(envelope.result.get("count"), Some(&Json::from_u64(1)));
    assert_eq!(envelope.result.get("total"), Some(&Json::from_u64(50)));
    assert_eq!(envelope.result.get("truncated"), Some(&Json::Bool(true)));
    assert!(matches!(envelope.result.get("guidance"), Some(Json::Str(_))));
}

#[test]
fn list_full_has_no_guidance() {
    let cli: AgentCli<Handler> = AgentCli::new("app", "x").command(cmd("ls", "list").handler(|_req| {
        HandlerOutcome::Output(CommandOutput::list(vec![
            obj(vec![("id", Json::from_u64(1))]),
            obj(vec![("id", Json::from_u64(2))]),
        ]))
    }));
    let run = run_argv(&cli, &["app", "ls"]);
    let envelope = success(&run);
    assert_eq!(envelope.result.get("truncated"), Some(&Json::Bool(false)));
    assert!(envelope.result.get("guidance").is_none());
}

fn doctor_cli(handler: Handler) -> AgentCli<Handler> {
    AgentCli::new("app", "x").doctor(handler)
}

#[test]
fn doctor_reports_healthy_when_all_checks_pass() {
    let cli = doctor_cli(|_req| {
        let checks = vec![Check::new("ping", ())];
        HandlerOutcome::Output(doctor_report(&checks, &[CheckResult::pass_with("ok")]))
    });
    let run = run_argv(&cli, &["app", "doctor"]);
    assert_eq!(success(&run).result.get("healthy"), Some(&Json::Bool(true)));
    assert_eq!(run.exit_code(), ExitCode::SUCCESS);
}

#[test]
fn doctor_failing_check_sets_exit_code() {
    let cli = doctor_cli(|_req| {
        let checks = vec![Check::new("auth", ()).exit_code(ExitCode::AUTH)];
        HandlerOutcome::Output(doctor_report(&checks, &[CheckResult::fail("no token", "Set API_TOKEN")]))
    });
    let run = run_argv(&cli, &["app", "doctor"]);
    assert_eq!(success(&run).result.get("healthy"), Some(&Json::Bool(false)));
    assert_eq!(run.exit_code(), ExitCode::AUTH);
}

#[test]
fn doctor_prefers_specific_exit_code_over_generic_error() {
    let cli = doctor_cli(|_req| {
        let checks = vec![Check::new("connectivity", ()), Check::new("auth", ()).exit_code(ExitCode::AUTH)];
        HandlerOutcome::Output(doctor_report(
            &checks,
            &[CheckResult::fail("down", "Check the network"), CheckResult::fail("no token", "Set API_TOKEN")],
        ))
    });
    let run = run_argv(&cli, &["app", "doctor"]);
    assert_eq!(run.exit_code(), ExitCode::AUTH);
}

#[test]
fn doctor_select_does_not_strip_checks_and_fix() {
    let cli = doctor_cli(|_req| {
        let checks = vec![Check::new("auth", ()).exit_code(ExitCode::AUTH)];
        HandlerOutcome::Output(doctor_report(&checks, &[CheckResult::fail("no token", "Set API_TOKEN")]))
    });
    let run = run_argv(&cli, &["app", "doctor", "--select=healthy"]);
    let envelope = success(&run);
    let Some(Json::Array(checks)) = envelope.result.get("checks") else { panic!("checks array") };
    assert_eq!(checks[0].get("fix"), Some(&text("Set API_TOKEN")));
    assert_eq!(run.exit_code(), ExitCode::AUTH);
}

#[test]
fn handler_panic_returns_json_error_envelope() {
    let cli: AgentCli<Handler> = AgentCli::new("app", "x").command(
        cmd("boom", "boom").usage("app boom").handler(|_req| HandlerOutcome::Panicked("simulated handler bug".to_string())),
    );
    let run = run_argv(&cli, &["app", "boom"]);
    let envelope = failure(&run);
    assert_eq!(envelope.error.code, "HANDLER_PANIC");
    assert!(envelope.error.message.contains("handler panicked"));
    assert!(!envelope.fix.is_empty());
    assert!(!envelope.next_actions.is_empty());
    assert_eq!(run.exit_code(), ExitCode::ERROR);
}

#[test]
fn valid_select_has_no_warning() {
    let run = run_argv(&rich_cli(), &["app", "get", "1", "--select=id,name"]);
    let envelope = success(&run);
    assert_eq!(envelope.result, obj(vec![("id", Json::from_u64(1)), ("name", text("widget"))]));
    assert!(envelope.result.get("select_warning").is_none());
}

#[test]
fn arg_parse_helpers_fold_missing_and_invalid() {
    let cli: AgentCli<Handler> = AgentCli::new("calc", "x").command(
        cmd("add", "add").usage("calc add <a> <b>").handler(|req| {
            let a = req.arg_parse(0, "a", |s: &str| s.parse::<f64>().ok());
            let b = req.arg_parse(1, "b", |s: &str| s.parse::<f64>().ok());
            match (a, b) {
                (Ok(a), Ok(b)) => {
                    let sum = serde_json::Number::from_f64(a + b).expect("finite").to_string();
                    ok(obj(vec![("sum", Json::Number(sum))]))
                }
                (Err(e), _) | (_, Err(e)) => HandlerOutcome::Failed(e),
            }
        }),
    );
    let run = run_argv(&cli, &["calc", "add", "3", "5"]);
    assert_eq!(success(&run).result.get("sum"), Some(&Json::Number("8.0".to_string())));

    let run = run_argv(&cli, &["calc", "add", "3"]);
    assert_eq!(failure(&run).error.code, "MISSING_ARG");
    assert_eq!(run.exit_code(), ExitCode::USAGE);

    let run = run_argv(&cli, &["calc", "add", "x", "5"]);
    assert_eq!(failure(&run).error.code, "INVALID_ARG");
    assert_eq!(failure(&run).error.message, "argument <a> is not valid: \"x\"");
    assert_eq!(run.exit_code(), ExitCode::USAGE);
}

#[test]
fn root_tree_lists_agent_flags() {
    let run = run_argv(&rich_cli(), &["app"]);
    let Some(Json::Array(flags)) = success(&run).result.get("agent_flags") else { panic!("agent_flags array") };
    assert!(flags.iter().any(|f| matches!(f.get("flag"), Some(Json::Str(s)) if s.starts_with("--select"))));
}

#[test]
fn agent_flags_absent_when_reserved_flags_disabled() {
    let run = run_argv(&rich_cli().reserved_flags(false), &["app"]);
    assert!(success(&run).result.get("agent_flags").is_none());
}

#[test]
fn explicit_negation_turns_reserved_booleans_off() {
    let cli: AgentCli<Handler> = AgentCli::new("app", "x").command(cmd("run", "run").handler(|req| {
        ok(obj(vec![
            ("dry_run", Json::Bool(req.dry_run())),
            ("assume_yes", Json::Bool(req.assume_yes())),
            ("compact", Json::Bool(req.compact())),
        ]))
    }));
    for off in ["false", "0", "no", "off"] {
        let dry = format!("--dry-run={off}");
        let yes = format!("--yes={off}");
        let run = run_argv(&cli, &["app", "run", &dry, &yes]);
        let envelope = success(&run);
        assert_eq!(envelope.result.get("dry_run"), Some(&Json::Bool(false)), "{off}");
        assert_eq!(envelope.result.get("assume_yes"), Some(&Json::Bool(false)), "{off}");
    }
    let run = run_argv(&cli, &["app", "run", "--dry-run=true", "--no-input"]);
    let envelope = success(&run);
    assert_eq!(envelope.result.get("dry_run"), Some(&Json::Bool(true)));
    assert_eq!(envelope.result.get("assume_yes"), Some(&Json::Bool(true)));
}

#[test]
fn negated_quiet_keeps_next_actions() {
    let run = run_argv(&sample_cli(), &["wokhei", "status", "--quiet=false"]);
    assert!(!success(&run).next_actions.is_empty());
    let run = run_argv(&sample_cli(), &["wokhei", "status", "--quiet"]);
    assert!(success(&run).next_actions.is_empty());
}

#[test]
fn typed_accessor_errors_exit_usage() {
    let cli: AgentCli<Handler> = AgentCli::new("calc", "x").command(cmd("add", "add").usage("calc add <a> <b>").handler(
        |req| match (req.require_arg(0, "a"), req.require_arg(1, "b")) {
            (Ok(_), Ok(_)) => match req.flag_parse("scale", |s: &str| s.parse::<u32>().ok()) {
                Ok(_) => ok(Json::Null),
                Err(e) => HandlerOutcome::Failed(e),
            },
            (Err(e), _) | (_, Err(e)) => HandlerOutcome::Failed(e),
        },
    ));
    let run = run_argv(&cli, &["calc", "add", "1"]);
    let envelope = failure(&run);
    assert_eq!(envelope.error.code, "MISSING_ARG");
    assert_eq!(envelope.error.message, "missing argument <b>");
    assert_eq!(envelope.fix, "Provide <b> as positional argument 1.");
    assert_eq!(run.exit_code(), ExitCode::USAGE);
    let run = run_argv(&cli, &["calc", "add", "1", "2", "--scale=big"]);
    let envelope = failure(&run);
    assert_eq!(envelope.error.code, "INVALID_FLAG");
    assert_eq!(envelope.error.message, "flag --scale is not valid: \"big\"");
    assert_eq!(run.exit_code(), ExitCode::USAGE);
}
