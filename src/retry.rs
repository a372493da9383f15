//! Retry policies and the decision whether to retry a failed operation.
use vstd::prelude::*;

verus! {

/// Pre-configured retry policies for fallible operations. Pauses are in
/// milliseconds.
#[derive(Debug, Clone, Copy, PartialEq, Eq, Structural)]
pub enum Policy {
    /// Limited number of times to retry.
    Limit(usize),
    /// Limited number of times to retry, with a fixed pause between retries.
    Pause(usize, u64),
    /// Limited number of times to retry, with an exponential pause between
    /// retries.
    Exponential(usize, u64),
}

impl Default for Policy {
    /// Five retries with an exponential pause starting at 100 milliseconds.
    fn default() -> (r: Policy)
        ensures
            r == Policy::Exponential(5, 100),
    {
        Policy::Exponential(5, 100)
    }
}

impl Policy {
    /// The number of retries that the policy allows.
    pub fn max_retries(&self) -> (r: usize)
        ensures
            r == match *self {
                Policy::Limit(n) => n,
                Policy::Pause(n, _) => n,
                Policy::Exponential(n, _) => n,
            },
    {
        match self {
            Policy::Limit(n) => *n,
            Policy::Pause(n, _) => *n,
            Policy::Exponential(n, _) => *n,
        }
    }
}

/// Counts the attempts of an operation and decides on retries.
#[derive(Debug)]
pub struct Counter {
    pub attempts: u16,
}

impl Counter {
    pub fn new() -> (r: Counter)
        ensures
            r.attempts == 0,
    {
        Counter { attempts: 0 }
    }

    /// Records one failed attempt and says whether to retry it. Only a
    /// service error that its operation classifies as retryable is retried:
    /// `service_retryable` is that classification, `None` for any other
    /// failure. The count stops at its largest value.
    pub fn is_retryable(&mut self, service_retryable: Option<bool>) -> (r: bool)
        ensures
            final(self).attempts == if old(self).attempts < u16::MAX {
                (old(self).attempts + 1) as u16
            } else {
                old(self).attempts
            },
            r == (service_retryable == Some(true)),
    {
        if let Some(v) = self.attempts.checked_add(1) {
            self.attempts = v;
        }
        match service_retryable {
            Some(b) => b,
            None => false,
        }
    }
}

} // verus!
