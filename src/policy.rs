//! The policy engine: whether an action may proceed now, later, or never.
//! Decisions are advisory inputs to the kernel and have no side effects.

use vstd::prelude::*;

verus! {

/// What a policy decided about an action.
#[derive(Clone, Debug, PartialEq, Eq)]
pub enum Decision {
    /// The action may run now.
    Allow,
    /// The action must not run; the run fails with this reason.
    Deny(String),
    /// The action may run once this many milliseconds have passed.
    RetryAfter(u64),
}

/// What a policy sees of an action about to run.
#[derive(Clone, Debug)]
pub struct PolicyCtx {
    /// The action being attempted.
    pub action_id: String,
    /// How many earlier attempts of this action failed.
    pub failures: u32,
    /// Milliseconds since the first failure (0 when none).
    pub elapsed_ms: u64,
    /// Milliseconds since the latest failure (0 when none).
    pub waited_ms: u64,
}

/// A governing rule set for actions.
pub trait Policy {
    /// `d` is a decision this policy may take on `ctx`; a policy that does
    /// not state it promises nothing.
    open spec fn decides(&self, ctx: PolicyCtx, d: Decision) -> bool {
        true
    }

    /// Decides whether the action described by `ctx` may proceed.
    fn evaluate(&self, ctx: &PolicyCtx) -> (r: Decision)
        ensures
            self.decides(*ctx, r),
    ;
}

/// No governance: every action may run.
#[derive(Clone, Copy, Debug)]
pub struct AllowAllPolicy {}

impl Policy for AllowAllPolicy {
    open spec fn decides(&self, ctx: PolicyCtx, d: Decision) -> bool {
        d == Decision::Allow
    }

    fn evaluate(&self, ctx: &PolicyCtx) -> (r: Decision) {
        Decision::Allow
    }
}

/// The retry budget of an action.
#[derive(Clone, Copy, Debug, PartialEq, Eq, Structural)]
pub struct BudgetRules {
    /// Attempts allowed in all; once this many have failed, the action is denied.
    pub max_attempts: u32,
    /// Longest time since the first failure during which retries are allowed.
    pub max_elapsed_ms: u64,
    /// Wait after the first failure; each further failure doubles it.
    pub base_backoff_ms: u64,
    /// Upper bound on any wait.
    pub max_backoff_ms: u64,
}

/// The wait owed after `failures` failures: `base * 2^(failures - 1)`,
/// capped at `cap` (0 when nothing failed).
pub open spec fn backoff_spec(base: nat, cap: nat, failures: nat) -> nat
    decreases failures,
{
    if failures == 0 {
        0
    } else if failures == 1 {
        if base <= cap { base } else { cap }
    } else {
        let prev = backoff_spec(base, cap, (failures - 1) as nat);
        if 2 * prev <= cap { 2 * prev } else { cap }
    }
}

/// The decision of the retry-with-backoff policy under `rules`: allow a
/// first attempt; deny once the attempts or the elapsed time are used up;
/// otherwise allow when the backoff has been waited out, and ask to retry
/// after the rest of it when not.
pub open spec fn backoff_decision_ok(rules: BudgetRules, ctx: PolicyCtx, d: Decision) -> bool {
    if ctx.failures == 0 {
        d == Decision::Allow
    } else if ctx.failures >= rules.max_attempts || ctx.elapsed_ms > rules.max_elapsed_ms {
        d is Deny
    } else {
        let b = backoff_spec(rules.base_backoff_ms as nat, rules.max_backoff_ms as nat, ctx.failures as nat);
        if ctx.waited_ms >= b {
            d == Decision::Allow
        } else {
            d == Decision::RetryAfter((b - ctx.waited_ms) as u64)
        }
    }
}

/// Retries failed actions with exponential backoff until the budget is spent.
#[derive(Clone, Copy, Debug)]
pub struct RetryWithBackoffPolicy {
    pub rules: BudgetRules,
}

impl RetryWithBackoffPolicy {
    pub fn new(rules: BudgetRules) -> (r: RetryWithBackoffPolicy)
        ensures
            r.rules == rules,
    {
        RetryWithBackoffPolicy { rules }
    }

    /// The wait owed after `failures` failures.
    pub fn backoff_ms(&self, failures: u32) -> (r: u64)
        ensures
            r == backoff_spec(self.rules.base_backoff_ms as nat, self.rules.max_backoff_ms as nat, failures as nat),
    {
        if failures == 0 {
            return 0;
        }
        let base = self.rules.base_backoff_ms;
        let cap = self.rules.max_backoff_ms;
        let mut b: u64 = if base <= cap { base } else { cap };
        let mut k: u32 = 1;
        while k < failures
            invariant
                1 <= k <= failures,
                b == backoff_spec(base as nat, cap as nat, k as nat),
                b <= cap,
            decreases failures - k,
        {
            if b <= cap / 2 {
                b = 2 * b;
            } else {
                b = cap;
            }
            k = k + 1;
        }
        b
    }

    /// Decides under this policy's budget.
    pub fn decide(&self, ctx: &PolicyCtx) -> (r: Decision)
        ensures
            backoff_decision_ok(self.rules, *ctx, r),
    {
        if ctx.failures == 0 {
            return Decision::Allow;
        }
        if ctx.failures >= self.rules.max_attempts || ctx.elapsed_ms > self.rules.max_elapsed_ms {
            return Decision::Deny("retry budget exhausted".to_string());
        }
        let b = self.backoff_ms(ctx.failures);
        if ctx.waited_ms >= b {
            Decision::Allow
        } else {
            Decision::RetryAfter(b - ctx.waited_ms)
        }
    }
}

impl Policy for RetryWithBackoffPolicy {
    open spec fn decides(&self, ctx: PolicyCtx, d: Decision) -> bool {
        backoff_decision_ok(self.rules, ctx, d)
    }

    fn evaluate(&self, ctx: &PolicyCtx) -> (r: Decision) {
        self.decide(ctx)
    }
}

} // verus!
