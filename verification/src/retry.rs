//! The bounded retry policy: a failing unit of work is re-attempted at
//! once, with no backoff, up to a fixed number of attempts; the final
//! attempt's failure propagates. The policy runs inside the task handed to
//! the coordinator, so the coordinator sees exactly one terminal success or
//! one terminal failure per allocated index.

use vstd::prelude::*;

verus! {

/// What the retry policy does after one attempt.
#[derive(Clone, Copy, PartialEq, Eq, Structural, Debug)]
pub enum RetryVerdict {
    /// The attempt succeeded: stop and return its value.
    Succeed,
    /// The attempt failed and attempts remain: try again immediately.
    TryAgain,
    /// The final attempt failed: propagate its error.
    GiveUp,
}

/// Decides how a run of retries goes on after attempt number `attempt`
/// (counted from 1) out of `max_attempts` ended with the given outcome.
pub fn retry_verdict(attempt: u64, max_attempts: u64, succeeded: bool) -> (v: RetryVerdict)
    requires
        1 <= attempt <= max_attempts,
    ensures
        (v == RetryVerdict::Succeed) <==> succeeded,
        (v == RetryVerdict::TryAgain) <==> (!succeeded && attempt < max_attempts),
        (v == RetryVerdict::GiveUp) <==> (!succeeded && attempt == max_attempts),
{
    if succeeded {
        RetryVerdict::Succeed
    } else if attempt < max_attempts {
        RetryVerdict::TryAgain
    } else {
        RetryVerdict::GiveUp
    }
}

/// Runs the retry policy over the outcome each attempt would have:
/// `outcomes[a - 1]` tells whether attempt `a` succeeds. Returns
/// `Ok(a)` when attempt `a` is the first to succeed within the bound, and
/// `Err(max_attempts)` when every allowed attempt fails — the error the
/// caller sees is then the final attempt's.
pub fn run_retry(max_attempts: usize, outcomes: &Vec<bool>) -> (r: Result<usize, usize>)
    requires
        1 <= max_attempts <= outcomes@.len(),
    ensures
        match r {
            Ok(a) => {
                &&& 1 <= a <= max_attempts
                &&& outcomes@[a - 1]
                &&& forall|k: int| 0 <= k < a - 1 ==> !outcomes@[k]
            },
            Err(a) => {
                &&& a == max_attempts
                &&& forall|k: int| 0 <= k < max_attempts ==> !outcomes@[k]
            },
        },
{
    let mut attempt: usize = 1;
    loop
        invariant
            1 <= attempt <= max_attempts,
            max_attempts <= outcomes@.len(),
            forall|k: int| 0 <= k < attempt - 1 ==> !outcomes@[k],
        decreases max_attempts - attempt,
    {
        let succeeded = outcomes[attempt - 1];
        match retry_verdict(attempt as u64, max_attempts as u64, succeeded) {
            RetryVerdict::Succeed => {
                return Ok(attempt);
            },
            RetryVerdict::TryAgain => {
                attempt = attempt + 1;
            },
            RetryVerdict::GiveUp => {
                return Err(attempt);
            },
        }
    }
}

} // verus!
