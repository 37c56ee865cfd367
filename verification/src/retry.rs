//! A policy-parameterized retry combinator.
//!
//! [`retry_options_with`] wraps an arbitrary fallible operation and re-runs
//! it until it succeeds or the attempt budget is exhausted. The combinator
//! knows nothing about what the operation does; the caller supplies the
//! operation and a sleeping function, so that the decision logic here stays
//! free of any suspension point.

use vstd::prelude::*;

verus! {

/// How long to wait before re-running a failed operation.
/// All delays are in milliseconds.
#[derive(Debug, Clone, Copy)]
pub enum RetryPolicy {
    /// Retry immediately.
    Immediate,
    /// Retry after a fixed delay.
    Delay(u64),
    /// Retry after a delay, with exponential backoff: the nth retry waits
    /// `2^n` times the base delay (saturating at `u64::MAX`).
    Exponential(u64),
}

impl Default for RetryPolicy {
    fn default() -> (r: Self)
        ensures
            r is Immediate,
    {
        RetryPolicy::Immediate
    }
}

#[derive(Debug, Clone, Copy)]
pub struct RetryOptions {
    /// The maximum number of retries. If `None`, retries are unlimited.
    pub max_retries: Option<usize>,
    /// The retry policy.
    pub policy: RetryPolicy,
}

impl Default for RetryOptions {
    fn default() -> (r: Self)
        ensures
            r.max_retries is None,
            r.policy is Immediate,
    {
        RetryOptions::new()
    }
}

impl RetryOptions {
    pub fn new() -> (r: Self)
        ensures
            r.max_retries is None,
            r.policy is Immediate,
    {
        RetryOptions { max_retries: None, policy: RetryPolicy::Immediate }
    }

    pub fn with_policy(self, policy: RetryPolicy) -> (r: Self)
        ensures
            r.max_retries == self.max_retries,
            r.policy == policy,
    {
        RetryOptions { max_retries: self.max_retries, policy }
    }

    pub fn from_policy(policy: RetryPolicy) -> (r: Self)
        ensures
            r.max_retries is None,
            r.policy == policy,
    {
        RetryOptions::new().with_policy(policy)
    }

    pub fn with_max_retries(self, max_retries: usize) -> (r: Self)
        ensures
            r.max_retries == Some(max_retries),
            r.policy == self.policy,
    {
        RetryOptions { max_retries: Some(max_retries), policy: self.policy }
    }

    pub fn from_max_retries(max_retries: usize) -> (r: Self)
        ensures
            r.max_retries == Some(max_retries),
            r.policy is Immediate,
    {
        RetryOptions::new().with_max_retries(max_retries)
    }
}

/// The default options: three retries with exponential backoff starting
/// at one second.
pub fn default_options() -> (r: RetryOptions)
    ensures
        r.max_retries == Some(3usize),
        r.policy == RetryPolicy::Exponential(1000),
{
    RetryOptions { max_retries: Some(3), policy: RetryPolicy::Exponential(1000) }
}

/// `2 * n`, saturating at `u64::MAX`.
pub open spec fn spec_saturating_double(n: nat) -> nat {
    if 2 * n > u64::MAX {
        u64::MAX as nat
    } else {
        2 * n
    }
}

/// The delay before the nth retry under the given policy, in milliseconds.
pub open spec fn spec_retry_delay(policy: RetryPolicy, retries: nat) -> nat
    decreases retries,
{
    match policy {
        RetryPolicy::Immediate => 0,
        RetryPolicy::Delay(d) => d as nat,
        RetryPolicy::Exponential(d) => if retries == 0 {
            d as nat
        } else {
            spec_saturating_double(spec_retry_delay(policy, (retries - 1) as nat))
        },
    }
}

/// Computes the delay before the nth retry, in milliseconds.
pub fn retry_delay(policy: RetryPolicy, retries: usize) -> (r: u64)
    ensures
        r == spec_retry_delay(policy, retries as nat),
{
    match policy {
        RetryPolicy::Immediate => 0,
        RetryPolicy::Delay(d) => d,
        RetryPolicy::Exponential(d) => {
            let mut delay: u64 = d;
            let mut i: usize = 0;
            while i < retries
                invariant
                    i <= retries,
                    delay == spec_retry_delay(RetryPolicy::Exponential(d), i as nat),
                decreases retries - i,
            {
                delay = if delay > u64::MAX / 2 {
                    u64::MAX
                } else {
                    delay * 2
                };
                i += 1;
            }
            delay
        },
    }
}

/// Whether the attempt budget allows another retry after `retries` failures.
pub fn should_retry(options: &RetryOptions, retries: usize) -> (r: bool)
    ensures
        options.max_retries is None ==> r,
        options.max_retries matches Some(max) ==> r == (retries < max),
{
    match options.max_retries {
        None => true,
        Some(max) => retries < max,
    }
}

/// Runs `f` until it succeeds or the retry budget of `options` is exhausted,
/// waiting between attempts per the policy. `sleep` is called only with the
/// policy's own delays, in milliseconds; `msg` describes the operation for
/// the caller's own use.
/// An unlimited budget (`max_retries` of `None`) still gives up after
/// `usize::MAX` retries, so that every call terminates.
///
/// Whatever happened, the result is one that `f` itself produced.
pub fn retry_options_with<T, E, F: Fn() -> Result<T, E>, S: Fn(u64)>(
    options: RetryOptions,
    f: F,
    msg: &str,
    sleep: S,
) -> (r: Result<T, E>)
    requires
        call_requires(f, ()),
        forall|d: u64, n: nat|
            #![trigger call_requires(sleep, (d,)), spec_retry_delay(options.policy, n)]
            d == spec_retry_delay(options.policy, n) ==> call_requires(sleep, (d,)),
    ensures
        call_ensures(f, (), r),
{
    let _ = msg;
    let mut retries: usize = 0;
    loop
        invariant
            call_requires(f, ()),
            forall|d: u64, n: nat|
                #![trigger call_requires(sleep, (d,)), spec_retry_delay(options.policy, n)]
                d == spec_retry_delay(options.policy, n) ==> call_requires(sleep, (d,)),
        decreases usize::MAX - retries,
    {
        match f() {
            Ok(value) => {
                return Ok(value);
            },
            Err(err) => {
                if !should_retry(&options, retries) {
                    return Err(err);
                }
                if retries == usize::MAX {
                    return Err(err);
                }
                let delay = retry_delay(options.policy, retries);
                if delay > 0 {
                    sleep(delay);
                }
                retries += 1;
            },
        }
    }
}

/// [`retry_options_with`] with a generic failure description.
pub fn retry_options<T, E, F: Fn() -> Result<T, E>, S: Fn(u64)>(
    options: RetryOptions,
    f: F,
    sleep: S,
) -> (r: Result<T, E>)
    requires
        call_requires(f, ()),
        forall|d: u64, n: nat|
            #![trigger call_requires(sleep, (d,)), spec_retry_delay(options.policy, n)]
            d == spec_retry_delay(options.policy, n) ==> call_requires(sleep, (d,)),
    ensures
        call_ensures(f, (), r),
{
    retry_options_with(options, f, "operation failed", sleep)
}

/// Runs `f` under [`default_options`].
pub fn retry<T, E, F: Fn() -> Result<T, E>, S: Fn(u64)>(f: F, sleep: S) -> (r: Result<T, E>)
    requires
        call_requires(f, ()),
        forall|d: u64, n: nat|
            #![trigger call_requires(sleep, (d,)), spec_retry_delay(RetryPolicy::Exponential(1000), n)]
            d == spec_retry_delay(RetryPolicy::Exponential(1000), n) ==> call_requires(
                sleep,
                (d,),
            ),
    ensures
        call_ensures(f, (), r),
{
    retry_options(default_options(), f, sleep)
}

/// Runs `f` under [`default_options`], with a failure description.
pub fn retry_with<T, E, F: Fn() -> Result<T, E>, S: Fn(u64)>(
    f: F,
    msg: &str,
    sleep: S,
) -> (r: Result<T, E>)
    requires
        call_requires(f, ()),
        forall|d: u64, n: nat|
            #![trigger call_requires(sleep, (d,)), spec_retry_delay(RetryPolicy::Exponential(1000), n)]
            d == spec_retry_delay(RetryPolicy::Exponential(1000), n) ==> call_requires(
                sleep,
                (d,),
            ),
    ensures
        call_ensures(f, (), r),
{
    retry_options_with(default_options(), f, msg, sleep)
}

} // verus!
