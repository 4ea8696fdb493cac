//! When the quotas of cooling tokens are asked for.
use vstd::prelude::*;

verus! {

/// Asks for the quotas of cooling tokens every few hours.
#[derive(Debug)]
pub struct TokenRefreshScheduler {
    pub interval_hours: i64,
    pub running: bool,
}

/// The hours between two rounds: at least one.
pub open spec fn hours_of(interval_hours: i64) -> int {
    if interval_hours < 1 {
        1
    } else {
        interval_hours as int
    }
}

impl TokenRefreshScheduler {
    /// A scheduler that has not been started.
    pub fn new(interval_hours: i64) -> (r: TokenRefreshScheduler)
        ensures
            r == (TokenRefreshScheduler { interval_hours, running: false }),
    {
        TokenRefreshScheduler { interval_hours, running: false }
    }

    /// Starts the rounds. Returns the seconds between two of them, or nothing
    /// where they are running already.
    pub fn start(&mut self) -> (r: Option<u64>)
        requires
            !old(self).running ==> hours_of(old(self).interval_hours) * 3600 <= u64::MAX,
        ensures
            final(self).running,
            final(self).interval_hours == old(self).interval_hours,
            r is None <==> old(self).running,
            r is Some ==> r->0 == hours_of(old(self).interval_hours) * 3600,
    {
        if self.running {
            return None;
        }
        self.running = true;
        let hours: u64 = if self.interval_hours < 1 {
            1
        } else {
            self.interval_hours as u64
        };
        Some(hours * 3600)
    }

    /// Stops the rounds.
    pub fn stop(&mut self)
        ensures
            !final(self).running,
            final(self).interval_hours == old(self).interval_hours,
    {
        self.running = false;
    }
}

} // verus!
