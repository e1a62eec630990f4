//! Chunk-transfer retry bookkeeping: attempts are bounded by a maximum
//! retry count with a fixed linear backoff. The surrounding program
//! performs the actual connection and write, bounded by its timeout,
//! and reports each failure here; the last observed error is the one
//! surfaced to the caller.

use vstd::prelude::*;

verus! {

/// The fixed pause between attempts, in seconds: linear backoff by
/// design, not exponential.
pub const RETRY_BACKOFF_SECS: u64 = 2;

/// Bookkeeping for one chunk transfer.
pub struct RetryPlan {
    pub max_retries: u8,
    pub attempts_made: u8,
}

impl RetryPlan {
    /// A fresh plan allowing up to `max_retries` attempts in total.
    pub fn new(max_retries: u8) -> (r: RetryPlan)
        ensures
            r.max_retries == max_retries,
            r.attempts_made == 0,
    {
        RetryPlan { max_retries, attempts_made: 0 }
    }

    /// Whether every allowed attempt has been used.
    pub open spec fn exhausted(&self) -> bool {
        self.attempts_made >= self.max_retries
    }

    /// Whether another attempt may be made.
    pub fn may_attempt(&self) -> (r: bool)
        ensures
            r <==> !self.exhausted(),
    {
        self.attempts_made < self.max_retries
    }

    /// Records a failed attempt.
    pub fn record_failure(&mut self)
        requires
            !old(self).exhausted(),
        ensures
            final(self).attempts_made == old(self).attempts_made + 1,
            final(self).max_retries == old(self).max_retries,
    {
        self.attempts_made = self.attempts_made + 1;
    }

    /// The pause before the next attempt, in seconds — the same after
    /// every failure.
    pub fn backoff_secs(&self) -> (r: u64)
        ensures
            r == RETRY_BACKOFF_SECS,
    {
        RETRY_BACKOFF_SECS
    }
}

} // verus!
