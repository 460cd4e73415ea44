use thingmirror::retry::{run_retry, retry_verdict, RetryVerdict};

#[test]
fn success_on_the_third_attempt_returns_attempt_three() {
    // fails on attempts 1 and 2, succeeds on attempt 3
    let outcomes = vec![false, false, true];
    assert_eq!(run_retry(3, &outcomes), Ok(3));
}

#[test]
fn immediate_success_stops_after_one_attempt() {
    let outcomes = vec![true, true, true];
    assert_eq!(run_retry(3, &outcomes), Ok(1));
}

#[test]
fn exhausted_retries_return_the_final_attempt() {
    // fails on all three attempts: the caller sees attempt 3's error
    let outcomes = vec![false, false, false];
    assert_eq!(run_retry(3, &outcomes), Err(3));
}

#[test]
fn single_attempt_policy_never_retries() {
    assert_eq!(run_retry(1, &vec![false]), Err(1));
    assert_eq!(run_retry(1, &vec![true]), Ok(1));
}

#[test]
fn verdict_follows_outcome_and_remaining_attempts() {
    assert_eq!(retry_verdict(1, 3, true), RetryVerdict::Succeed);
    assert_eq!(retry_verdict(1, 3, false), RetryVerdict::TryAgain);
    assert_eq!(retry_verdict(2, 3, false), RetryVerdict::TryAgain);
    assert_eq!(retry_verdict(3, 3, false), RetryVerdict::GiveUp);
    assert_eq!(retry_verdict(3, 3, true), RetryVerdict::Succeed);
}
