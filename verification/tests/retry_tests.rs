use ginger_connector::retry::{
    attempt_accepted, run_retry_schedule, should_retry, sleep_before_attempt, version_matches,
};

#[test]
fn all_mismatched_attempts_exhaust_the_budget() {
    // max_retries = 3: attempt 0 plus three retries, then failure.
    let outcomes = vec![false, false, false, false];
    let (attempts, sleeps, success) = run_retry_schedule(&outcomes, 3);
    assert_eq!(attempts, 4);
    assert_eq!(sleeps, 3);
    assert!(!success);
}

#[test]
fn first_match_makes_exactly_one_attempt_and_no_sleep() {
    let outcomes = vec![true, false, false, false];
    let (attempts, sleeps, success) = run_retry_schedule(&outcomes, 3);
    assert_eq!(attempts, 1);
    assert_eq!(sleeps, 0);
    assert!(success);
}

#[test]
fn match_midway_stops_early() {
    let outcomes = vec![false, true, false];
    let (attempts, sleeps, success) = run_retry_schedule(&outcomes, 2);
    assert_eq!(attempts, 2);
    assert_eq!(sleeps, 1);
    assert!(success);
}

#[test]
fn zero_retries_means_one_attempt() {
    let (attempts, sleeps, success) = run_retry_schedule(&vec![false], 0);
    assert_eq!(attempts, 1);
    assert_eq!(sleeps, 0);
    assert!(!success);
}

#[test]
fn acceptance_requires_transport_success_and_exact_version() {
    let expected = "1.4.0".to_string();
    let same = "1.4.0".to_string();
    let other = "1.4.1".to_string();
    assert!(attempt_accepted(true, Some(&same), &expected));
    assert!(!attempt_accepted(false, Some(&same), &expected));
    assert!(!attempt_accepted(true, Some(&other), &expected));
    assert!(!attempt_accepted(true, None, &expected));
}

#[test]
fn version_match_is_plain_string_equality() {
    // No semantic comparison: a different spelling of the same version
    // does not match.
    assert!(version_matches(&"1.0.0".to_string(), &"1.0.0".to_string()));
    assert!(!version_matches(&"1.0".to_string(), &"1.0.0".to_string()));
}

#[test]
fn only_the_first_attempt_skips_the_sleep() {
    assert!(!sleep_before_attempt(0));
    assert!(sleep_before_attempt(1));
    assert!(sleep_before_attempt(7));
}

#[test]
fn retry_decision_respects_the_bound() {
    assert!(should_retry(0, 3));
    assert!(should_retry(2, 3));
    assert!(!should_retry(3, 3));
}
