use agcli::cli::{AgentCli, Command};
use agcli::envelope::{ActionParam, NextAction};
use agcli::suggest::{levenshtein, nearest_name, unknown_command_fix};
use agcli::usage::{extract_bool_flag_names, next_action_from_usage, parse_select_fields, reserved_flag_names};

fn param<'a>(action: &'a NextAction, name: &str) -> Option<&'a ActionParam> {
    action
        .params
        .as_ref()
        .and_then(|ps| ps.iter().find(|(k, _)| k == name).map(|(_, p)| p))
}

#[test]
fn extract_bool_flag_names_basic() {
    let mut set: Vec<String> = Vec::new();
    extract_bool_flag_names(
        "agplan submit [path] [--title=<title>] [--no-git] [--dry-run]",
        &mut set,
    );
    assert!(set.contains(&"no-git".to_string()));
    assert!(set.contains(&"dry-run".to_string()));
    assert!(!set.contains(&"title".to_string()));
}

#[test]
fn extract_bool_flag_names_short_and_bundled() {
    let mut set: Vec<String> = Vec::new();
    extract_bool_flag_names("app x [-v] [-ab] [-o <file>] [--  spaced  ] [--", &mut set);
    assert_eq!(set, vec!["v", "a", "b", "spaced"]);
}

#[test]
fn nearest_name_gates_unrelated_words() {
    assert_eq!(
        nearest_name("streem", &["stream", "status"]),
        Some("stream".to_string())
    );
    assert_eq!(nearest_name("list", &["stream", "status"]), None);
    assert_eq!(nearest_name("x", &[]), None);
}

#[test]
fn levenshtein_known_distances() {
    assert_eq!(levenshtein("kitten", "sitting"), 3);
    assert_eq!(levenshtein("", "abc"), 3);
    assert_eq!(levenshtein("abc", "abc"), 0);
}

#[test]
fn unknown_command_fix_texts() {
    assert_eq!(
        unknown_command_fix("subcommand", "streem", &["stream"]),
        "Did you mean `stream`? Valid subcommands: stream."
    );
    assert_eq!(
        unknown_command_fix("subcommand", "list", &["stream"]),
        "Valid subcommands: stream."
    );
    assert_eq!(
        unknown_command_fix("command", "x", &[]),
        "Run the root command to inspect the available commands."
    );
}

#[test]
fn reserved_flag_names_includes_select_and_bools() {
    let names = reserved_flag_names();
    assert!(names.contains(&"select"));
    assert!(names.contains(&"quiet"));
    assert!(names.contains(&"dry-run"));
}

#[test]
fn parse_select_fields_trims_and_drops_empty() {
    assert_eq!(parse_select_fields("id,name, body"), vec!["id", "name", "body"]);
    assert_eq!(parse_select_fields(" , ,"), Vec::<String>::new());
    assert_eq!(parse_select_fields("true"), vec!["true"]);
}

#[test]
fn next_action_from_usage_literal_no_params() {
    let action = next_action_from_usage("wokhei status", "Check status");
    assert!(action.params.is_none());
    assert_eq!(action.command, "wokhei status");
}

#[test]
fn next_action_from_usage_positional_placeholder() {
    let action = next_action_from_usage("wokhei run <run-id>", "Run a job");
    let params = action.params.as_ref().expect("params should be present");
    assert_eq!(params.len(), 1);
    let p = param(&action, "run-id").expect("run-id param");
    assert_eq!(p.required, Some(true));
}

#[test]
fn next_action_from_usage_optional_flag_placeholder() {
    let action = next_action_from_usage("wokhei logs [--lines=<lines>]", "View logs");
    let params = action.params.as_ref().expect("params should be present");
    assert_eq!(params.len(), 1);
    let p = param(&action, "lines").expect("lines param");
    assert_eq!(p.required, Some(false));
}

#[test]
fn next_action_from_usage_mixed_placeholders() {
    let action = next_action_from_usage(
        "wokhei send <event> [--data=<data>] [--follow]",
        "Send event",
    );
    let params = action.params.as_ref().expect("params should be present");
    assert_eq!(params.len(), 2);
    assert_eq!(param(&action, "event").unwrap().required, Some(true));
    assert_eq!(param(&action, "data").unwrap().required, Some(false));
    assert!(param(&action, "follow").is_none());
}

#[test]
fn next_action_from_usage_default_generated_usage() {
    let action = next_action_from_usage("prog cmd [--flag=<value>] [args...]", "Do something");
    assert!(action.params.is_some(), "params should be present");
    assert!(param(&action, "value").is_some());
}

#[test]
fn next_action_from_usage_short_value_flag_is_optional() {
    let action = next_action_from_usage("app log [-v <level>] <file>", "Log a file");
    assert!(action.params.is_some(), "params should be present");
    assert_eq!(param(&action, "level").unwrap().required, Some(false));
    assert_eq!(param(&action, "file").unwrap().required, Some(true));
}

#[test]
fn next_action_from_usage_bare_optional_positional() {
    let action = next_action_from_usage("app x [<optional>]", "X");
    assert!(action.params.is_some(), "params should be present");
    assert_eq!(param(&action, "optional").unwrap().required, Some(false));
}

#[test]
fn next_action_from_usage_skips_dotted_and_keeps_order() {
    let action = next_action_from_usage("app x <b> <a.b> [<a>] <b>", "X");
    let params = action.params.as_ref().expect("params");
    let names: Vec<&str> = params.iter().map(|(k, _)| k.as_str()).collect();
    assert_eq!(names, vec!["a", "b"]);
    assert_eq!(param(&action, "b").unwrap().required, Some(true));
}

#[test]
fn framework_generated_root_actions_include_params() {
    let cli: AgentCli<u8> = AgentCli::new("mycli", "Test CLI").command(
        Command::new("deploy", "Deploy service").usage("mycli deploy <env> [--tag=<tag>]"),
    );
    let actions = cli.root_actions();
    assert_eq!(actions.len(), 1);
    assert!(actions[0].params.is_some(), "params should be present");
    assert_eq!(param(&actions[0], "env").unwrap().required, Some(true));
    assert_eq!(param(&actions[0], "tag").unwrap().required, Some(false));
}

#[test]
fn with_param_replaces_and_orders_by_name() {
    let action = NextAction::new("app run", "Run")
        .with_param("zeta", ActionParam::new().required(true))
        .with_param("alpha", ActionParam::new().description("first"))
        .with_param("zeta", ActionParam::new().required(false));
    let params = action.params.as_ref().expect("params");
    let names: Vec<&str> = params.iter().map(|(k, _)| k.as_str()).collect();
    assert_eq!(names, vec!["alpha", "zeta"]);
    assert_eq!(param(&action, "zeta").unwrap().required, Some(false));
    assert_eq!(param(&action, "alpha").unwrap().description.as_deref(), Some("first"));
}
