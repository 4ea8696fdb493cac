//! Trying a call again.
use vstd::prelude::*;

verus! {

/// How often a call was tried, and for which statuses it is tried again.
#[derive(Debug)]
pub struct RetryContext {
    pub attempt: u32,
    pub max_retry: u32,
    pub retry_codes: Vec<u16>,
}

/// Whether a call that failed with `status` is tried again after `attempt` failures.
pub open spec fn retries(attempt: u32, max_retry: u32, codes: Seq<u16>, status: u16) -> bool {
    attempt < max_retry && codes.contains(status)
}

impl Default for RetryContext {
    fn default() -> (r: RetryContext)
        ensures
            r.attempt == 0,
            r.max_retry == 0,
            r.retry_codes@.len() == 0,
    {
        RetryContext { attempt: 0, max_retry: 0, retry_codes: Vec::new() }
    }
}

impl RetryContext {
    /// No call failed yet.
    pub fn new(max_retry: u32, retry_codes: Vec<u16>) -> (r: RetryContext)
        ensures
            r == (RetryContext { attempt: 0, max_retry, retry_codes }),
    {
        RetryContext { attempt: 0, max_retry, retry_codes }
    }

    /// Whether a call that failed with `status` is tried again.
    pub fn should_retry(&self, status: u16) -> (r: bool)
        ensures
            r == retries(self.attempt, self.max_retry, self.retry_codes@, status),
    {
        if self.attempt >= self.max_retry {
            return false;
        }
        let n: usize = self.retry_codes.len();
        let mut i: usize = 0;
        while i < n
            invariant
                n == self.retry_codes@.len(),
                i <= n,
                self.attempt < self.max_retry,
                forall|k: int| 0 <= k < i ==> #[trigger] self.retry_codes@[k] != status,
            decreases n - i,
        {
            if self.retry_codes[i] == status {
                return true;
            }
            i += 1;
        }
        false
    }

    /// Takes note of a failure, with its status where it has one. Returns how
    /// many half seconds to wait before the call is tried again, or nothing
    /// where it is not.
    pub fn note_failure(&mut self, status: Option<u16>) -> (r: Option<u64>)
        requires
            status is Some ==> old(self).attempt < u32::MAX,
        ensures
            final(self).max_retry == old(self).max_retry,
            final(self).retry_codes == old(self).retry_codes,
            final(self).attempt == old(self).attempt + (if status is Some {
                1int
            } else {
                0
            }),
            match r {
                Some(halves) => {
                    &&& status is Some
                    &&& retries(
                        final(self).attempt,
                        old(self).max_retry,
                        old(self).retry_codes@,
                        status->0,
                    )
                    &&& halves == final(self).attempt + 1
                },
                None => status is Some ==> !retries(
                    final(self).attempt,
                    old(self).max_retry,
                    old(self).retry_codes@,
                    status->0,
                ),
            },
    {
        match status {
            Some(code) => {
                self.attempt = self.attempt + 1;
                if self.should_retry(code) {
                    Some(self.attempt as u64 + 1)
                } else {
                    None
                }
            },
            None => None,
        }
    }
}

/// The calls that failed with these statuses were all tried again.
pub open spec fn all_retried(max_retry: u32, codes: Seq<u16>, statuses: Seq<u16>) -> bool {
    forall|i: int|
        0 <= i < statuses.len() ==> retries(
            (i + 1) as u32,
            max_retry,
            codes,
            #[trigger] statuses[i],
        )
}

/// A call is made at most `max_retry` times, though always once: after the
/// failures that were tried again there is one more call.
pub proof fn law_calls_are_bounded(max_retry: u32, codes: Seq<u16>, statuses: Seq<u16>)
    requires
        all_retried(max_retry, codes, statuses),
        statuses.len() < u32::MAX,
    ensures
        statuses.len() == 0 || statuses.len() + 1 <= max_retry,
        forall|i: int| 0 <= i < statuses.len() ==> codes.contains(#[trigger] statuses[i]),
{
    if statuses.len() > 0 {
        let last = statuses.len() - 1;
        assert(retries((last + 1) as u32, max_retry, codes, statuses[last]));
    }
}

} // verus!
