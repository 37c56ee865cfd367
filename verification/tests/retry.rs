use std::cell::Cell;

use acad::nonewrap::Nonewrap;
use acad::retry::{
    default_options, retry, retry_delay, retry_options, retry_options_with, should_retry,
    RetryOptions, RetryPolicy,
};

#[test]
fn builders() {
    let options = RetryOptions::new();
    assert!(options.max_retries.is_none());
    assert!(matches!(options.policy, RetryPolicy::Immediate));

    let options = RetryOptions::from_policy(RetryPolicy::Delay(250)).with_max_retries(4);
    assert_eq!(options.max_retries, Some(4));
    assert!(matches!(options.policy, RetryPolicy::Delay(250)));

    let options = RetryOptions::from_max_retries(2).with_policy(RetryPolicy::Exponential(100));
    assert_eq!(options.max_retries, Some(2));
    assert!(matches!(options.policy, RetryPolicy::Exponential(100)));

    let options = RetryOptions::default();
    assert!(options.max_retries.is_none());

    let options = default_options();
    assert_eq!(options.max_retries, Some(3));
    assert!(matches!(options.policy, RetryPolicy::Exponential(1000)));
}

#[test]
fn delays() {
    assert_eq!(retry_delay(RetryPolicy::Immediate, 5), 0);
    assert_eq!(retry_delay(RetryPolicy::Delay(250), 5), 250);
    assert_eq!(retry_delay(RetryPolicy::Exponential(1000), 0), 1000);
    assert_eq!(retry_delay(RetryPolicy::Exponential(1000), 1), 2000);
    assert_eq!(retry_delay(RetryPolicy::Exponential(1000), 3), 8000);
    assert_eq!(retry_delay(RetryPolicy::Exponential(u64::MAX), 1), u64::MAX);
}

#[test]
fn budget() {
    let unlimited = RetryOptions::new();
    assert!(should_retry(&unlimited, 1_000_000));
    let bounded = RetryOptions::from_max_retries(3);
    assert!(should_retry(&bounded, 2));
    assert!(!should_retry(&bounded, 3));
}

#[test]
fn succeeds_after_failures() {
    let attempts = Cell::new(0usize);
    let slept = Cell::new(0u64);
    let result: Result<&str, &str> = retry_options(
        RetryOptions::from_policy(RetryPolicy::Delay(10)),
        || {
            attempts.set(attempts.get() + 1);
            if attempts.get() < 3 {
                Err("not yet")
            } else {
                Ok("done")
            }
        },
        |ms| slept.set(slept.get() + ms),
    );
    assert_eq!(result, Ok("done"));
    assert_eq!(attempts.get(), 3);
    assert_eq!(slept.get(), 20);
}

#[test]
fn gives_up_after_budget() {
    let attempts = Cell::new(0usize);
    let result: Result<(), &str> = retry_options_with(
        RetryOptions::from_max_retries(2),
        || {
            attempts.set(attempts.get() + 1);
            Err("still failing")
        },
        "never succeeds",
        |_| {},
    );
    assert_eq!(result, Err("still failing"));
    // the first attempt plus two retries
    assert_eq!(attempts.get(), 3);
}

#[test]
fn default_retry_wrapper() {
    let attempts = Cell::new(0usize);
    let result: Result<u32, &str> = retry(
        || {
            attempts.set(attempts.get() + 1);
            if attempts.get() == 1 {
                Err("first")
            } else {
                Ok(7)
            }
        },
        |_| {},
    );
    assert_eq!(result, Ok(7));
    assert_eq!(attempts.get(), 2);
}

#[test]
fn nonewrap_collapses_results() {
    let ok: Result<u32, &str> = Ok(5);
    assert_eq!(ok.nonewrap(), Some(5));
    let err: Result<u32, &str> = Err("nope");
    assert_eq!(err.nonewrap(), None);
}
