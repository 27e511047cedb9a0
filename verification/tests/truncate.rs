use agcli::truncate::{TEMP_FILE_ATTEMPTS, fits, keep_all, keep_tail, sanitize_prefix, temp_file_name};

fn lines(n: usize) -> Vec<String> {
    (0..n).map(|idx| format!("line-{idx}")).collect()
}

#[test]
fn truncation_reports_dropped_head_count() {
    assert!(!fits(10, 3));
    let result = keep_tail(lines(10), 3, "/tmp/x.log".to_string());
    assert_eq!(result.entries, vec!["line-7", "line-8", "line-9"]);
    assert_eq!(result.lines, 3);
    assert_eq!(result.dropped, 7);
    assert_eq!(result.dropped, result.total - result.lines);
    assert!(result.truncated);
    assert_eq!(result.full_output.as_deref(), Some("/tmp/x.log"));
}

#[test]
fn no_truncation_reports_zero_dropped() {
    assert!(fits(2, 10));
    let result = keep_all(vec!["a".to_string(), "b".to_string()]);
    assert!(!result.truncated);
    assert_eq!(result.dropped, 0);
    assert_eq!(result.total, 2);
    assert!(result.full_output.is_none());
}

#[test]
fn max_lines_zero_is_floored_to_one() {
    assert!(!fits(5, 0));
    assert!(fits(1, 0));
    let result = keep_tail(lines(5), 0, "/tmp/y.log".to_string());
    assert_eq!(result.entries, vec!["line-4"]);
    assert_eq!(result.lines, 1);
    assert_eq!(result.dropped, 4);
}

#[test]
fn sanitize_prefix_keeps_safe_characters() {
    assert_eq!(sanitize_prefix("my logs/../x_1-ok"), "mylogsx_1-ok");
    assert_eq!(sanitize_prefix("///"), "agcli-output");
    assert_eq!(sanitize_prefix("é"), "agcli-output");
}

#[test]
fn temp_file_names_carry_pid_clock_and_retry_suffix() {
    assert_eq!(temp_file_name("agcli-output", 42, 1_700_000_000_123_456_789, 0), "agcli-output-42-1700000000123456789.log");
    assert_eq!(temp_file_name("run", 7, 0, 3), "run-7-0-3.log");
    assert_eq!(
        temp_file_name("x", u32::MAX, u128::MAX, 4),
        "x-4294967295-340282366920938463463374607431768211455-4.log"
    );
    assert_eq!(TEMP_FILE_ATTEMPTS, 5);
}

#[test]
fn temp_file_attempts_stop_after_the_last_name() {
    assert_eq!(agcli::truncate::next_temp_attempt(0), Some(1));
    assert_eq!(agcli::truncate::next_temp_attempt(3), Some(4));
    assert_eq!(agcli::truncate::next_temp_attempt(4), None);
}
