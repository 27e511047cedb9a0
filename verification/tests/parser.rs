use agcli::invocation::{parse_invocation, parse_invocation_with_bool_flags};
use agcli::request::{CommandRequest, Cow};

#[test]
fn parse_invocation_handles_flags_and_positionals() {
    let invocation = parse_invocation(&[
        "wokhei",
        "create-header",
        "--relay=ws://localhost:7777",
        "-d=payload.json",
        "extra",
    ])
    .expect("invocation should parse");

    assert_eq!(invocation.program(), "wokhei");
    assert_eq!(invocation.flag("relay"), Some("ws://localhost:7777"));
    assert_eq!(invocation.flag("d"), Some("payload.json"));
    assert_eq!(
        invocation.positionals(),
        &[String::from("create-header"), String::from("extra")]
    );
}

#[test]
fn negative_number_treated_as_positional() {
    let invocation = parse_invocation(&["app", "status", "-123"]).expect("invocation should parse");
    assert_eq!(
        invocation.positionals(),
        &[String::from("status"), String::from("-123")]
    );
    assert!(invocation.flags().is_empty());
}

#[test]
fn negative_float_treated_as_positional() {
    let invocation = parse_invocation(&["app", "-3.14"]).expect("invocation should parse");
    assert_eq!(invocation.positionals(), &[String::from("-3.14")]);
}

#[test]
fn long_flag_with_negative_value() {
    let invocation = parse_invocation(&["app", "--count=-1"]).expect("invocation should parse");
    assert_eq!(invocation.flag("count"), Some("-1"));
    assert!(invocation.positionals().is_empty());
}

#[test]
fn short_flag_with_negative_value() {
    let invocation = parse_invocation(&["app", "-n=-5"]).expect("invocation should parse");
    assert_eq!(invocation.flag("n"), Some("-5"));
    assert!(invocation.positionals().is_empty());
}

#[test]
fn long_flag_equals_syntax() {
    let invocation = parse_invocation(&["app", "--count=-1"]).expect("invocation should parse");
    assert_eq!(invocation.flag("count"), Some("-1"));
}

#[test]
fn double_dash_forces_positionals() {
    let invocation =
        parse_invocation(&["app", "--", "--not-a-flag", "-abc"]).expect("invocation should parse");
    assert_eq!(
        invocation.positionals(),
        &[String::from("--not-a-flag"), String::from("-abc")]
    );
    assert!(invocation.flags().is_empty());
}

#[test]
fn bundled_short_flags() {
    let invocation = parse_invocation(&["app", "-abc"]).expect("invocation should parse");
    assert_eq!(invocation.flag("a"), Some("true"));
    assert_eq!(invocation.flag("b"), Some("true"));
    assert_eq!(invocation.flag("c"), Some("true"));
}

#[test]
fn prompt_returns_cow_borrowed_for_flag() {
    let invocation = parse_invocation(&["app", "--prompt=hello world"]).expect("should parse");
    let none: [String; 0] = [];
    let request = CommandRequest::new(&invocation, &none, &none);
    let prompt = request.prompt().expect("should have prompt");
    assert!(matches!(prompt, Cow::Borrowed(_)));
    assert_eq!(prompt.as_str(), "hello world");
}

#[test]
fn prompt_returns_cow_owned_for_positionals() {
    let invocation = parse_invocation(&["app"]).expect("should parse");
    let positionals = vec!["foo".to_string(), "bar".to_string()];
    let none: [String; 0] = [];
    let request = CommandRequest::new(&invocation, &none, &positionals);
    let prompt = request.prompt().expect("should have prompt");
    assert!(matches!(prompt, Cow::Owned(_)));
    assert_eq!(prompt.as_str(), "foo bar");
}

#[test]
fn long_flag_equals_carries_value() {
    let invocation = parse_invocation(&["app", "--output=file.txt"]).expect("should parse");
    assert_eq!(invocation.flag("output"), Some("file.txt"));
    assert!(invocation.positionals().is_empty());
}

#[test]
fn short_flag_equals_carries_value() {
    let invocation = parse_invocation(&["app", "-o=file.txt"]).expect("should parse");
    assert_eq!(invocation.flag("o"), Some("file.txt"));
    assert!(invocation.positionals().is_empty());
}

#[test]
fn bare_long_flag_consumes_next_token_as_value() {
    let invocation = parse_invocation(&["app", "--title", "My Title"]).expect("should parse");
    assert_eq!(invocation.flag("title"), Some("My Title"));
    assert!(invocation.positionals().is_empty());
}

#[test]
fn bare_short_flag_consumes_next_token_as_value() {
    let invocation = parse_invocation(&["app", "-o", "file.txt"]).expect("should parse");
    assert_eq!(invocation.flag("o"), Some("file.txt"));
    assert!(invocation.positionals().is_empty());
}

#[test]
fn bare_long_flag_at_end_of_args_is_boolean() {
    let invocation = parse_invocation(&["app", "submit", "--no-git"]).expect("should parse");
    assert_eq!(invocation.flag("no-git"), Some("true"));
    assert_eq!(invocation.positionals(), &[String::from("submit")]);
}

#[test]
fn bare_long_flag_followed_by_flag_is_boolean() {
    let invocation = parse_invocation(&["app", "--verbose", "--debug"]).expect("should parse");
    assert_eq!(invocation.flag("verbose"), Some("true"));
    assert_eq!(invocation.flag("debug"), Some("true"));
}

#[test]
fn schema_aware_bool_flag_does_not_swallow_positional() {
    let bools = vec!["no-git".to_string()];
    let invocation =
        parse_invocation_with_bool_flags(&["app", "submit", "--no-git", "./plan.html"], &bools)
            .expect("should parse");
    assert_eq!(invocation.flag("no-git"), Some("true"));
    assert_eq!(
        invocation.positionals(),
        &[String::from("submit"), String::from("./plan.html")]
    );
}

#[test]
fn scientific_notation_negative_number() {
    let invocation = parse_invocation(&["app", "-1e3"]).expect("should parse");
    assert_eq!(invocation.positionals(), &[String::from("-1e3")]);
    assert!(invocation.flags().is_empty());
}

#[test]
fn shorthand_decimal_negative_number() {
    let invocation = parse_invocation(&["app", "-.5"]).expect("should parse");
    assert_eq!(invocation.positionals(), &[String::from("-.5")]);
    assert!(invocation.flags().is_empty());
}

#[test]
fn empty_argv_is_refused() {
    let err = parse_invocation(&[]).expect_err("empty argv must fail");
    assert_eq!(err.message(), "argv is empty");
}

#[test]
fn empty_long_flag_is_invalid_syntax() {
    let err = parse_invocation(&["app", "--=oops"]).expect_err("must fail");
    assert_eq!(err.message(), "invalid flag syntax: --=oops");
}

#[test]
fn program_is_file_name_of_path_and_command_line_joins_tokens() {
    let invocation = parse_invocation(&["/usr/bin/app", "run", "--x=1"]).expect("should parse");
    assert_eq!(invocation.program(), "app");
    assert_eq!(invocation.command_line(), "app run --x=1");
    assert_eq!(invocation.raw_args(), &[String::from("run"), String::from("--x=1")]);
}

#[test]
fn help_flag_is_recorded() {
    let invocation = parse_invocation(&["app", "gateway", "-h"]).expect("should parse");
    assert!(invocation.help_requested());
    assert_eq!(invocation.positionals(), &[String::from("gateway")]);
}

#[test]
fn request_accessors_read_convention_flags() {
    let invocation = parse_invocation(&[
        "app", "run", "--dry-run", "--no-input", "--no-cache", "--stdin", "--select=id, name,",
    ])
    .expect("should parse");
    let none: [String; 0] = [];
    let request = CommandRequest::new(&invocation, &none, &none);
    assert!(request.dry_run());
    assert!(request.assume_yes());
    assert!(request.no_cache());
    assert!(request.wants_stdin());
    assert!(!request.quiet());
    assert!(!request.no_color());
    assert!(!request.compact());
    assert_eq!(request.select(), Some(vec!["id".to_string(), "name".to_string()]));
}

#[test]
fn require_arg_reports_missing_argument() {
    let invocation = parse_invocation(&["calc"]).expect("should parse");
    let none: [String; 0] = [];
    let positionals = vec!["3".to_string()];
    let request = CommandRequest::new(&invocation, &none, &positionals);
    assert_eq!(request.require_arg(0, "a").expect("present"), "3");
    let err = request.require_arg(1, "b").expect_err("missing");
    assert_eq!(err.code, "MISSING_ARG");
    assert_eq!(err.message, "missing argument <b>");
    assert_eq!(err.fix, "Provide <b> as positional argument 1.");
}

#[test]
fn arg_parse_folds_missing_and_invalid() {
    let invocation = parse_invocation(&["calc", "--n=x"]).expect("should parse");
    let none: [String; 0] = [];
    let positionals = vec!["3".to_string(), "x".to_string()];
    let request = CommandRequest::new(&invocation, &none, &positionals);
    let parse = |s: &str| s.parse::<i64>().ok();
    assert_eq!(request.arg_parse(0, "a", parse).expect("parses"), 3);
    let err = request.arg_parse(1, "b", parse).expect_err("invalid");
    assert_eq!(err.code, "INVALID_ARG");
    assert_eq!(err.message, "argument <b> is not valid: \"x\"");
    assert_eq!(request.arg_parse(2, "c", parse).expect_err("missing").code, "MISSING_ARG");
    let err = request.flag_parse("n", parse).expect_err("invalid flag");
    assert_eq!(err.code, "INVALID_FLAG");
    assert_eq!(err.fix, "Pass a valid value for --n.");
    assert_eq!(request.flag_parse("absent", parse).expect("absent is fine"), None);
}
