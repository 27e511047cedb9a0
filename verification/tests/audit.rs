use agcli::audit::AuditSeverity;
use agcli::cli::{AgentCli, Command};
use agcli::envelope::NextAction;

fn sample_cli() -> AgentCli<u8> {
    AgentCli::new("wokhei", "Agent-first Nostr list CLI")
        .version("0.1.0")
        .command(
            Command::new("status", "Show relay and key status")
                .usage("wokhei status")
                .handler(0)
                .default_next_action(NextAction::new("wokhei status", "Re-check current status")),
        )
        .command(
            Command::new("gateway", "Gateway operations").subcommand(
                Command::new("stream", "Stream gateway events")
                    .usage("wokhei gateway stream [--follow]")
                    .handler(1),
            ),
        )
}

#[test]
fn audit_clean_cli_is_clean() {
    let cli = sample_cli();
    let report = cli.audit();
    assert!(report.is_clean(), "unexpected findings: {:?}", report.findings);
}

#[test]
fn audit_flags_dangling_next_action() {
    let cli: AgentCli<u8> = AgentCli::new("app", "x").command(
        Command::new("a", "Command A")
            .usage("app a")
            .handler(0)
            .default_next_action(NextAction::new("app nonexistent", "go nowhere")),
    );
    let report = cli.audit();
    assert!(!report.is_clean());
    assert!(report.findings.iter().any(|f| f.code == "DANGLING_NEXT_ACTION"));
}

#[test]
fn audit_flags_dead_end_command() {
    let cli: AgentCli<u8> = AgentCli::new("app", "x").command(Command::new("orphan", "no handler, no subs"));
    let report = cli.audit();
    assert!(report.findings.iter().any(|f| f.code == "DEAD_END_COMMAND"));
    assert!(!report.is_clean());
}

#[test]
fn audit_flags_next_action_leading_with_placeholder() {
    let cli: AgentCli<u8> = AgentCli::new("app", "x").command(
        Command::new("a", "Command A")
            .usage("app a")
            .handler(0)
            .default_next_action(NextAction::new("<id>", "names no command")),
    );
    let report = cli.audit();
    assert!(report.findings.iter().any(|f| f.code == "DANGLING_NEXT_ACTION"));
}

#[test]
fn audit_allows_bare_root_next_action() {
    let cli: AgentCli<u8> = AgentCli::new("app", "x").command(
        Command::new("a", "Command A")
            .usage("app a")
            .handler(0)
            .default_next_action(NextAction::new("app", "Inspect the root tree")),
    );
    assert!(cli.audit().is_clean(), "{:?}", cli.audit().findings);
}

#[test]
fn audit_warns_on_missing_usage_and_empty_description() {
    let cli: AgentCli<u8> = AgentCli::new("app", "x").command(Command::new("b", "  ").handler(0));
    let report = cli.audit();
    assert!(report.is_clean());
    assert_eq!(report.warning_count(), 2);
    assert_eq!(report.error_count(), 0);
    let codes: Vec<&str> = report.findings.iter().map(|f| f.code.as_str()).collect();
    assert_eq!(codes, vec!["EMPTY_DESCRIPTION", "MISSING_USAGE"]);
    assert!(report.findings.iter().all(|f| f.severity == AuditSeverity::Warning && f.command == "b"));
}

#[test]
fn audit_reports_nested_paths_in_order() {
    let cli: AgentCli<u8> = AgentCli::new("app", "x").command(
        Command::new("db", "Database")
            .subcommand(Command::new("migrate", "Migrate"))
            .default_next_action(NextAction::new("app db migrate <n>", "resolves")),
    );
    let report = cli.audit();
    assert_eq!(report.findings.len(), 1);
    assert_eq!(report.findings[0].code, "DEAD_END_COMMAND");
    assert_eq!(report.findings[0].command, "db migrate");
}

#[test]
fn next_action_resolution_rules() {
    let cli = sample_cli();
    assert!(cli.next_action_resolves("wokhei gateway stream --follow"));
    assert!(cli.next_action_resolves("gateway"));
    assert!(cli.next_action_resolves(""));
    assert!(cli.next_action_resolves("wokhei"));
    assert!(!cli.next_action_resolves("wokhei gateway bogus"));
    assert!(!cli.next_action_resolves("wokhei key=value"));
}
