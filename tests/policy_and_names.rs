use oris_runtime::event::KernelError;
use oris_runtime::models::{parse_attempt_status, AttemptExecutionStatus};
use oris_runtime::names::{is_valid_schema_ident, map_driver_err, push_decimal, qualified_table};
use oris_runtime::policy::{BudgetRules, Decision, PolicyCtx, RetryWithBackoffPolicy};

fn rules() -> BudgetRules {
    BudgetRules { max_attempts: 4, max_elapsed_ms: 60_000, base_backoff_ms: 100, max_backoff_ms: 350 }
}

fn ctx(failures: u32, elapsed_ms: u64, waited_ms: u64) -> PolicyCtx {
    PolicyCtx { action_id: "act".to_string(), failures, elapsed_ms, waited_ms }
}

#[test]
fn backoff_doubles_and_caps() {
    let p = RetryWithBackoffPolicy::new(rules());
    assert_eq!(p.backoff_ms(0), 0);
    assert_eq!(p.backoff_ms(1), 100);
    assert_eq!(p.backoff_ms(2), 200);
    assert_eq!(p.backoff_ms(3), 350);
    assert_eq!(p.backoff_ms(40), 350);
}

#[test]
fn retry_policy_decisions() {
    let p = RetryWithBackoffPolicy::new(rules());
    assert_eq!(p.decide(&ctx(0, 0, 0)), Decision::Allow);
    assert_eq!(p.decide(&ctx(2, 50, 50)), Decision::RetryAfter(150));
    assert_eq!(p.decide(&ctx(2, 500, 200)), Decision::Allow);
    assert!(matches!(p.decide(&ctx(4, 0, 10_000)), Decision::Deny(_)));
    assert!(matches!(p.decide(&ctx(1, 60_001, 10_000)), Decision::Deny(_)));
}

#[test]
fn attempt_status_text_round_trips() {
    let all = [
        AttemptExecutionStatus::Queued,
        AttemptExecutionStatus::Leased,
        AttemptExecutionStatus::Running,
        AttemptExecutionStatus::RetryBackoff,
        AttemptExecutionStatus::Completed,
        AttemptExecutionStatus::Failed,
        AttemptExecutionStatus::Cancelled,
    ];
    for s in all {
        assert_eq!(parse_attempt_status(s.as_str()), s);
    }
    assert_eq!(parse_attempt_status("retry_backoff"), AttemptExecutionStatus::RetryBackoff);
    assert_eq!(parse_attempt_status("bogus"), AttemptExecutionStatus::Queued);
    assert!(AttemptExecutionStatus::Cancelled.is_terminal());
    assert!(!AttemptExecutionStatus::Leased.is_terminal());
}

#[test]
fn schema_identifiers() {
    assert!(is_valid_schema_ident("public"));
    assert!(is_valid_schema_ident("oris_runtime_repo_test_123"));
    assert!(!is_valid_schema_ident(""));
    assert!(!is_valid_schema_ident("bad-name"));
    assert!(!is_valid_schema_ident("x\"; DROP"));
    assert!(!is_valid_schema_ident("caf\u{e9}"));
}

#[test]
fn qualified_table_quotes_schema() {
    assert_eq!(qualified_table("public", "runtime_attempts"), Ok("\"public\".runtime_attempts".to_string()));
    assert_eq!(
        qualified_table("no way", "runtime_leases"),
        Err(KernelError::Driver("invalid schema: no way".to_string()))
    );
}

#[test]
fn driver_error_message() {
    assert_eq!(map_driver_err("insert lease", "boom"), KernelError::Driver("insert lease: boom".to_string()));
}

#[test]
fn decimal_digits() {
    let mut s = "n=".to_string();
    push_decimal(&mut s, 0);
    assert_eq!(s, "n=0");
    let mut t = String::new();
    push_decimal(&mut t, 1_234_567_890);
    assert_eq!(t, "1234567890");
    let mut u = String::new();
    push_decimal(&mut u, u64::MAX);
    assert_eq!(u, u64::MAX.to_string());
}
