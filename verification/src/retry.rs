//! Spec-fetch retry policy: bounded polling for a freshly published spec
//! whose reported version must equal the expected one exactly.
//!
//! Attempt 0 runs immediately; each of the attempts 1 to `max_retries`
//! sleeps one interval first.  An attempt is accepted only on transport
//! success together with an exact version string match; any other outcome
//! is a failed attempt, and exhausting every attempt fails the fetch.

use vstd::prelude::*;

verus! {

/// Exact-match gate on the reported version: plain string equality, no
/// semantic version comparison.
pub fn version_matches(got: &String, expected: &String) -> (r: bool)
    ensures
        r == (got@ == expected@),
{
    got.eq(expected)
}

/// Whether one attempt is accepted: transport success and a reported
/// version equal to the expected one; a missing version never matches.
pub fn attempt_accepted(transport_ok: bool, reported: Option<&String>, expected: &String) -> (r:
    bool)
    ensures
        r == (transport_ok && (match reported {
            Some(v) => v@ == expected@,
            None => false,
        })),
{
    if !transport_ok {
        return false;
    }
    match reported {
        Some(v) => version_matches(v, expected),
        None => false,
    }
}

/// Whether an attempt sleeps one interval before running: every attempt
/// but the first.
pub fn sleep_before_attempt(attempt: usize) -> (r: bool)
    ensures
        r == (attempt > 0),
{
    attempt > 0
}

/// Whether another attempt follows a failed attempt `attempt`.
pub fn should_retry(attempt: usize, max_retries: usize) -> (r: bool)
    ensures
        r == (attempt < max_retries),
{
    attempt < max_retries
}

/// Outcome of a run whose attempt `i` onward see the acceptance results
/// `accepted`: the number of attempts performed, and whether one was
/// accepted before the bound ran out.
pub open spec fn spec_run_from(accepted: Seq<bool>, i: int, max_retries: int) -> (int, bool)
    decreases max_retries - i,
{
    if i < 0 || i >= max_retries {
        (i + 1, accepted[i])
    } else if accepted[i] {
        (i + 1, true)
    } else {
        spec_run_from(accepted, i + 1, max_retries)
    }
}

/// Outcome of a whole run: attempts performed and overall success.
pub open spec fn spec_retry_outcome(accepted: Seq<bool>, max_retries: int) -> (int, bool) {
    spec_run_from(accepted, 0, max_retries)
}

/// Runs the retry schedule against a pre-decided acceptance result per
/// attempt, counting attempts and sleeps.  The real fetch loop follows the
/// same steps with live outcomes.
pub fn run_retry_schedule(accepted: &Vec<bool>, max_retries: usize) -> (r: (usize, usize, bool))
    requires
        accepted@.len() == max_retries + 1,
    ensures
        (r.0 as int, r.2) == spec_retry_outcome(accepted@, max_retries as int),
        r.1 == r.0 - 1,
        1 <= r.0 <= max_retries + 1,
{
    let total = accepted.len();
    let mut attempt: usize = 0;
    loop
        invariant
            0 <= attempt <= max_retries,
            total == max_retries + 1,
            accepted@.len() == max_retries + 1,
            spec_retry_outcome(accepted@, max_retries as int) == spec_run_from(
                accepted@,
                attempt as int,
                max_retries as int,
            ),
            forall|j: int| 0 <= j < attempt ==> !accepted@[j],
        ensures
            ({
                let out = spec_retry_outcome(accepted@, max_retries as int);
                out.0 == attempt + 1 && out.1 == accepted@[attempt as int] && attempt
                    <= max_retries
            }),
        decreases max_retries - attempt,
    {
        let ok = accepted[attempt];
        if ok {
            break ;
        }
        if !should_retry(attempt, max_retries) {
            break ;
        }
        attempt += 1;
    }
    let ghost out = spec_retry_outcome(accepted@, max_retries as int);
    let accepted_now = accepted[attempt];
    proof {
        assert(out.0 == attempt + 1);
        assert(out.1 == accepted@[attempt as int]);
    }
    (attempt + 1, attempt, accepted_now)
}

/// Attempt-count law: with every attempt rejected, exactly
/// `max_retries + 1` attempts occur and the run fails; with the first
/// attempt accepted, exactly one attempt occurs.
pub proof fn lemma_retry_attempt_count(accepted: Seq<bool>, max_retries: int)
    requires
        0 <= max_retries,
        accepted.len() == max_retries + 1,
    ensures
        (forall|j: int| 0 <= j <= max_retries ==> !accepted[j]) ==> spec_retry_outcome(
            accepted,
            max_retries,
        ) == (max_retries + 1, false),
        accepted[0] ==> spec_retry_outcome(accepted, max_retries) == (1int, true),
{
    if forall|j: int| 0 <= j <= max_retries ==> !accepted[j] {
        lemma_run_from_all_rejected(accepted, 0, max_retries);
    }
}

proof fn lemma_run_from_all_rejected(accepted: Seq<bool>, i: int, max_retries: int)
    requires
        0 <= i <= max_retries,
        accepted.len() == max_retries + 1,
        forall|j: int| 0 <= j <= max_retries ==> !accepted[j],
    ensures
        spec_run_from(accepted, i, max_retries) == (max_retries + 1, false),
    decreases max_retries - i,
{
    if i < max_retries {
        lemma_run_from_all_rejected(accepted, i + 1, max_retries);
    }
}

} // verus!
