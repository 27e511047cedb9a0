use agcli::cli::{AgentCli, Command};
use agcli::skill::{collapse, yaml_scalar};

fn cli() -> AgentCli<u8> {
    AgentCli::new("app", "Agent-native test CLI")
        .version("2.1.0")
        .command(Command::new("status", "Show status").usage("app status").handler(0))
        .command(
            Command::new("db", "Database\n   operations")
                .subcommand(Command::new("migrate", "Run migrations").usage("app db migrate [--dry-run]").handler(1)),
        )
}

#[test]
fn skill_markdown_documents_the_whole_tree() {
    let markdown = cli().skill_markdown();
    assert!(markdown.starts_with("---\nname: app\n"), "{markdown}");
    assert!(markdown.contains("description: Agent-native test CLI. Use when running the `app` CLI"));
    assert!(markdown.contains("Version 2.1.0."));
    assert!(markdown.contains("- `app status` — Show status\n"));
    assert!(markdown.contains("- `app db <subcommand>` — Database operations\n"));
    assert!(markdown.contains("  - `app db migrate [--dry-run]` — Run migrations\n"));
    assert!(markdown.contains("- `7` — "));
    assert!(markdown.contains("UNKNOWN_COMMAND"));
    assert!(markdown.contains("--select"));
}

#[test]
fn reserved_flags_off_drops_the_agent_flag_section() {
    let markdown = AgentCli::<u8>::new("app", "Test CLI").reserved_flags(false).skill_markdown();
    assert!(!markdown.contains("--select"), "{markdown}");
    assert!(markdown.contains("## Exit codes"));
    assert!(!markdown.contains("## Commands"));
}

#[test]
fn collapse_folds_whitespace() {
    assert_eq!(collapse("  a\n  b\tc  "), "a b c");
    assert_eq!(collapse("   "), "");
}

#[test]
fn yaml_scalar_quotes_only_when_needed() {
    assert_eq!(yaml_scalar("plain text"), "plain text");
    assert_eq!(yaml_scalar("name: does X"), "\"name: does X\"");
    assert_eq!(yaml_scalar(""), "\"\"");
    assert_eq!(yaml_scalar("say \"hi\" \\ now"), "\"say \\\"hi\\\" \\\\ now\"");
    assert_eq!(yaml_scalar("-dash"), "\"-dash\"");
    assert_eq!(yaml_scalar("ends with:"), "\"ends with:\"");
}

#[test]
fn description_line_adds_period_and_version() {
    assert_eq!(
        cli().description_line(),
        "Agent-native test CLI. Use when running the `app` CLI or when the user asks to app something. Version 2.1.0."
    );
    let c: AgentCli<u8> = AgentCli::new("x", "Done!");
    assert_eq!(c.description_line(), "Done! Use when running the `x` CLI or when the user asks to x something.");
}
