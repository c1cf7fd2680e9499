//! Request-level retry policy: bounded attempts with capped exponential
//! backoff.  A retryable network failure is retried until the attempt limit
//! is reached, each delay doubling from the base up to the cap; after that
//! the failure escalates to a per-shard failure.

use vstd::prelude::*;

verus! {

/// 2 to the power `n`.
pub open spec fn pow2(n: nat) -> nat
    decreases n,
{
    if n == 0 {
        1
    } else {
        2 * pow2((n - 1) as nat)
    }
}

/// The delay before retry number `attempt`: the base delay doubled
/// `attempt` times, capped.
pub open spec fn spec_backoff(base: u64, cap: u64, attempt: u32) -> u64 {
    if base * pow2(attempt as nat) >= cap {
        cap
    } else {
        (base * pow2(attempt as nat)) as u64
    }
}

/// A power of two is at least one.
pub proof fn lemma_pow2_pos(n: nat)
    ensures
        pow2(n) >= 1,
    decreases n,
{
    if n > 0 {
        lemma_pow2_pos((n - 1) as nat);
    }
}

/// Retry policy for ledger and storage-network requests.
#[derive(Clone, Copy, PartialEq, Eq, Structural, Debug)]
pub struct RetryPolicy {
    pub base_delay_ms: u64,
    pub cap_delay_ms: u64,
    pub max_attempts: u32,
}

impl RetryPolicy {
    /// A request is retried exactly when its failure is retryable and the
    /// attempt limit is not yet reached.
    pub fn should_retry(&self, attempt: u32, retryable: bool) -> (r: bool)
        ensures
            r == (retryable && attempt < self.max_attempts),
    {
        retryable && attempt < self.max_attempts
    }

    /// The delay in milliseconds before retry number `attempt`: exponential
    /// from the base, capped at the policy's maximum.
    pub fn backoff_delay_ms(&self, attempt: u32) -> (r: u64)
        ensures
            r == spec_backoff(self.base_delay_ms, self.cap_delay_ms, attempt),
    {
        let base: u64 = self.base_delay_ms;
        let cap: u64 = self.cap_delay_ms;
        if base >= cap {
            proof {
                lemma_pow2_pos(attempt as nat);
                assert(base * 1 <= base * pow2(attempt as nat)) by (nonlinear_arith)
                    requires
                        pow2(attempt as nat) >= 1,
                ;
            }
            return cap;
        }
        let mut cur: u64 = base;
        let mut k: u32 = 0;
        while k < attempt
            invariant
                k <= attempt,
                base < cap,
                (cur == base * pow2(k as nat) && base * pow2(k as nat) < cap) || (cur == cap && base
                    * pow2(k as nat) >= cap),
            decreases attempt - k,
        {
            let ghost p = pow2(k as nat);
            proof {
                assert(pow2((k + 1) as nat) == 2 * p) by {
                    reveal_with_fuel(pow2, 2);
                };
                assert(base * (2 * p) == 2 * (base * p)) by (nonlinear_arith);
                assert(base * p <= base * (2 * p)) by (nonlinear_arith)
                    requires
                        p >= 1 || p >= 0,
                ;
            }
            if cur >= cap / 2 + 1 {
                proof {
                    vstd::arithmetic::div_mod::lemma_fundamental_div_mod(cap as int, 2);
                }
                cur = cap;
            } else if cur < cap {
                cur = cur * 2;
            }
            k = k + 1;
        }
        if cur >= cap {
            cap
        } else {
            cur
        }
    }
}

} // verus!
