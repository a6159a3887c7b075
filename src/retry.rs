//! What a worker does after each attempt to write a batch.
use vstd::prelude::*;
use crate::error::IngestError;

verus! {

/// The next step of the flush protocol after an attempt.
#[derive(Clone, Copy, Debug, PartialEq, Eq, Structural)]
pub enum RetryAction {
    /// The batch is durable; discard it.
    Done,
    /// Reconnect, wait `backoff_ms`, then write the whole batch again.
    Retry { backoff_ms: u64 },
    /// Give the batch up, report it as dropped and count it.
    Drop,
    /// Stop the whole pipeline.
    Halt,
}

#[derive(Clone, Copy, Debug, PartialEq, Eq, Structural)]
pub struct RetryPolicy {
    /// Halt on the first failure instead of retrying.
    pub panic_on_error: bool,
    /// Attempts made before a batch is dropped.
    pub max_attempts: u32,
    pub base_backoff_ms: u64,
    pub max_backoff_ms: u64,
}

/// The wait before the retry that follows attempt `attempt` (counted from 1):
/// `base` doubled once per earlier attempt, capped at `cap`.
pub open spec fn backoff(base: nat, cap: nat, attempt: nat) -> nat
    decreases attempt,
{
    if attempt <= 1 {
        if base <= cap {
            base
        } else {
            cap
        }
    } else {
        let twice = 2 * backoff(base, cap, (attempt - 1) as nat);
        if twice <= cap {
            twice
        } else {
            cap
        }
    }
}

impl RetryPolicy {
    pub open spec fn action(&self, attempt: nat, outcome: Result<(), IngestError>) -> RetryAction {
        match outcome {
            Ok(()) => RetryAction::Done,
            Err(e) => if self.panic_on_error {
                RetryAction::Halt
            } else if !e.is_transient() || attempt >= self.max_attempts {
                RetryAction::Drop
            } else {
                RetryAction::Retry {
                    backoff_ms: backoff(
                        self.base_backoff_ms as nat,
                        self.max_backoff_ms as nat,
                        attempt,
                    ) as u64,
                }
            },
        }
    }

    /// The wait after attempt `attempt`.
    pub fn backoff_ms(&self, attempt: u32) -> (r: u64)
        ensures
            r as nat == backoff(self.base_backoff_ms as nat, self.max_backoff_ms as nat, attempt as nat),
    {
        let cap = self.max_backoff_ms;
        let mut wait: u64 = if self.base_backoff_ms <= cap {
            self.base_backoff_ms
        } else {
            cap
        };
        let mut k: u32 = 1;
        while k < attempt
            invariant
                1 <= k,
                k <= attempt || k == 1,
                wait as nat == backoff(self.base_backoff_ms as nat, cap as nat, k as nat),
                wait <= cap,
            decreases attempt - k,
        {
            let ghost prev = wait;
            if wait <= cap / 2 {
                wait = 2 * wait;
            } else {
                assert(2 * prev > cap);
                wait = cap;
            }
            k = k + 1;
            assert(wait as nat == backoff(self.base_backoff_ms as nat, cap as nat, k as nat));
        }
        assert(attempt == 0 ==> backoff(self.base_backoff_ms as nat, cap as nat, attempt as nat)
            == backoff(self.base_backoff_ms as nat, cap as nat, 1));
        wait
    }

    /// Decides what follows attempt `attempt` (counted from 1) of writing a
    /// batch, given how it ended.
    pub fn next_action(&self, attempt: u32, outcome: Result<(), IngestError>) -> (r: RetryAction)
        ensures
            r == self.action(attempt as nat, outcome),
    {
        match outcome {
            Ok(()) => RetryAction::Done,
            Err(e) => {
                if self.panic_on_error {
                    RetryAction::Halt
                } else if !e.transient() || attempt >= self.max_attempts {
                    RetryAction::Drop
                } else {
                    RetryAction::Retry { backoff_ms: self.backoff_ms(attempt) }
                }
            },
        }
    }
}

/// Waits never exceed the cap, and never shrink from one attempt to the next.
pub proof fn lemma_backoff_bounded_and_growing(base: nat, cap: nat, attempt: nat)
    ensures
        backoff(base, cap, attempt) <= cap,
        backoff(base, cap, attempt) <= backoff(base, cap, attempt + 1),
    decreases attempt,
{
    if attempt > 1 {
        lemma_backoff_bounded_and_growing(base, cap, (attempt - 1) as nat);
    }
}

/// A batch is never silently lost: each failed attempt leads to a retry, a
/// reported drop or a halt, and only once the attempt budget is spent (or
/// the error cannot pass by retrying) is it dropped.
pub proof fn lemma_failure_never_silent(policy: RetryPolicy, attempt: nat, e: IngestError)
    ensures
        policy.action(attempt, Err(e)) != RetryAction::Done,
        policy.action(attempt, Err(e)) == RetryAction::Drop ==> !policy.panic_on_error && (
        !e.is_transient() || attempt >= policy.max_attempts),
{
}

} // verus!
