//! Retry policy of public requests: which statuses are access controls,
//! which are transient, and how long to wait between attempts.

use crate::text::{chars_of, contains, contains_exec, lower, lower_exec};
use vstd::prelude::*;

verus! {

/// Attempts per request.
pub const HTTP_MAX_ATTEMPTS: u32 = 4;

/// 401, 403 and 404: the content is not public; never retried.
pub open spec fn spec_is_access_control(status: u16) -> bool {
    status == 401 || status == 403 || status == 404
}

pub fn is_access_control_status(status: u16) -> (b: bool)
    ensures
        b == spec_is_access_control(status),
{
    status == 401 || status == 403 || status == 404
}

/// 429 and every server error (5xx): transient.
pub open spec fn spec_is_retryable(status: u16) -> bool {
    status == 429 || (500 <= status && status <= 599)
}

pub fn is_retryable_status(status: u16) -> (b: bool)
    ensures
        b == spec_is_retryable(status),
{
    status == 429 || (500 <= status && status <= 599)
}

pub open spec fn two_pow(k: nat) -> nat
    decreases k,
{
    if k == 0 {
        1
    } else {
        2 * two_pow((k - 1) as nat)
    }
}

/// The wait before retrying after attempt `attempt`, in seconds: one
/// second doubled per earlier attempt, saturating at `u32::MAX`.
pub open spec fn spec_retry_delay(attempt: u32) -> u64 {
    let k: nat = if attempt == 0 {
        0
    } else {
        (attempt - 1) as nat
    };
    if two_pow(k) >= u32::MAX {
        u32::MAX as u64
    } else {
        two_pow(k) as u64
    }
}

proof fn lemma_two_pow_grows(k: nat)
    ensures
        two_pow(k) >= k + 1,
        two_pow(k + 1) == 2 * two_pow(k),
    decreases k,
{
    if k > 0 {
        lemma_two_pow_grows((k - 1) as nat);
    }
}

/// The wait before retrying after attempt `attempt` (counted from 1), in
/// seconds: 1, 2, 4, 8, ..., saturating at `u32::MAX`.
pub fn retry_delay(attempt: u32) -> (secs: u64)
    ensures
        secs == spec_retry_delay(attempt),
{
    let k: u32 = if attempt == 0 {
        0
    } else {
        attempt - 1
    };
    let mut v: u64 = 1;
    let mut i: u32 = 0;
    while i < k
        invariant
            i <= k,
            k == (if attempt == 0 {
                0
            } else {
                attempt - 1
            }),
            v == two_pow(i as nat),
            v < u32::MAX,
        decreases k - i,
    {
        proof {
            lemma_two_pow_grows(i as nat);
        }
        if v * 2 >= u32::MAX as u64 {
            proof {
                lemma_two_pow_monotone((i + 1) as nat, k as nat);
                assert(two_pow(k as nat) >= u32::MAX);
            }
            return u32::MAX as u64;
        }
        v = v * 2;
        i = i + 1;
    }
    v
}

proof fn lemma_two_pow_monotone(a: nat, b: nat)
    requires
        a <= b,
    ensures
        two_pow(a) <= two_pow(b),
    decreases b,
{
    if b > a {
        lemma_two_pow_monotone(a, (b - 1) as nat);
        lemma_two_pow_grows((b - 1) as nat);
    }
}

/// How one attempt of a request ended.
#[derive(Debug, Clone, Copy, PartialEq, Eq, Structural)]
pub enum AttemptResult {
    /// A response with this status.
    Status(u16),
    /// No response; `transient` for a timeout or a failed connection.
    TransportError { transient: bool },
}

/// What to do after an attempt.
#[derive(Debug, Clone, Copy, PartialEq, Eq, Structural)]
pub enum NextStep {
    /// Use the response (a status outside 2xx is still an error then).
    Accept,
    /// The content is not public: stop, and do not bypass it.
    Blocked,
    /// Wait this many seconds, then try again.
    RetryAfter(u64),
    /// A transient status persisted through every attempt.
    StatusPersisted,
    /// A transient transport failure persisted through every attempt.
    TransportPersisted,
    /// A transport failure that is not transient.
    TransportFailed,
}

/// The policy: access controls stop at once; transient statuses and
/// transport failures are retried with the backoff until the last attempt;
/// any other response is used.
pub open spec fn spec_next_step(attempt: u32, result: AttemptResult) -> NextStep {
    match result {
        AttemptResult::Status(s) => if spec_is_access_control(s) {
            NextStep::Blocked
        } else if spec_is_retryable(s) {
            if attempt >= HTTP_MAX_ATTEMPTS {
                NextStep::StatusPersisted
            } else {
                NextStep::RetryAfter(spec_retry_delay(attempt))
            }
        } else {
            NextStep::Accept
        },
        AttemptResult::TransportError { transient } => if transient {
            if attempt >= HTTP_MAX_ATTEMPTS {
                NextStep::TransportPersisted
            } else {
                NextStep::RetryAfter(spec_retry_delay(attempt))
            }
        } else {
            NextStep::TransportFailed
        },
    }
}

pub fn next_step(attempt: u32, result: AttemptResult) -> (r: NextStep)
    ensures
        r == spec_next_step(attempt, result),
{
    match result {
        AttemptResult::Status(s) => {
            if is_access_control_status(s) {
                NextStep::Blocked
            } else if is_retryable_status(s) {
                if attempt >= HTTP_MAX_ATTEMPTS {
                    NextStep::StatusPersisted
                } else {
                    NextStep::RetryAfter(retry_delay(attempt))
                }
            } else {
                NextStep::Accept
            }
        },
        AttemptResult::TransportError { transient } => {
            if transient {
                if attempt >= HTTP_MAX_ATTEMPTS {
                    NextStep::TransportPersisted
                } else {
                    NextStep::RetryAfter(retry_delay(attempt))
                }
            } else {
                NextStep::TransportFailed
            }
        },
    }
}

/// The documented policy, status by status: 401, 403 and 404 stop at once;
/// 429 and 500 to 599 are retried after 1, 2 and 4 seconds and given up
/// after the fourth attempt; any other status is used. A timeout or a
/// failed connection is retried the same way; any other transport failure
/// stops.
pub proof fn lemma_retry_policy(attempt: u32, status: u16, transient: bool)
    requires
        attempt >= 1,
    ensures
        (status == 401 || status == 403 || status == 404) ==> spec_next_step(
            attempt,
            AttemptResult::Status(status),
        ) == NextStep::Blocked,
        (status == 429 || (500 <= status && status <= 599)) ==> spec_next_step(
            attempt,
            AttemptResult::Status(status),
        ) == (if attempt >= 4 {
            NextStep::StatusPersisted
        } else if attempt == 1 {
            NextStep::RetryAfter(1)
        } else if attempt == 2 {
            NextStep::RetryAfter(2)
        } else {
            NextStep::RetryAfter(4)
        }),
        !(status == 401 || status == 403 || status == 404 || status == 429 || (500 <= status
            && status <= 599)) ==> spec_next_step(attempt, AttemptResult::Status(status))
            == NextStep::Accept,
        transient ==> spec_next_step(attempt, AttemptResult::TransportError { transient }) == (if attempt
            >= 4 {
            NextStep::TransportPersisted
        } else if attempt == 1 {
            NextStep::RetryAfter(1)
        } else if attempt == 2 {
            NextStep::RetryAfter(2)
        } else {
            NextStep::RetryAfter(4)
        }),
        !transient ==> spec_next_step(attempt, AttemptResult::TransportError { transient })
            == NextStep::TransportFailed,
{
    reveal_with_fuel(two_pow, 3);
}

/// No request is tried more than `HTTP_MAX_ATTEMPTS` times: the policy
/// asks for another attempt only before the last one, and each wait is
/// the backoff of the attempt that failed.
pub proof fn lemma_retries_bounded(attempt: u32, result: AttemptResult)
    ensures
        spec_next_step(attempt, result) matches NextStep::RetryAfter(d) ==> attempt
            < HTTP_MAX_ATTEMPTS && d == spec_retry_delay(attempt),
{
}

/// The backoff doubles from one attempt to the next while it is below
/// `u32::MAX` seconds.
pub proof fn lemma_retry_delay_doubles(attempt: u32)
    requires
        1 <= attempt < u32::MAX,
        2 * spec_retry_delay(attempt) < u32::MAX,
    ensures
        spec_retry_delay((attempt + 1) as u32) == 2 * spec_retry_delay(attempt),
{
    lemma_two_pow_grows((attempt - 1) as nat);
}

/// A response body that is an HTML page (`Content-Type` holding
/// `text/html`, any ASCII case), where an image was expected.
pub fn is_html_content_type(content_type: &str) -> (b: bool)
    ensures
        b == contains(lower(content_type@), "text/html"@),
{
    let v = chars_of(content_type);
    let l = lower_exec(v.as_slice());
    let t = chars_of("text/html");
    contains_exec(l.as_slice(), t.as_slice())
}

} // verus!
