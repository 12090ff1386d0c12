//! Backoff and give-up policy for backend connect and transient command
//! failures.
//!
//! The raw delay doubles per attempt, capped at a maximum:
//! `delay(attempt) = min(max_delay, base_delay * 2^attempt)`, written below
//! as a doubling recurrence. The caller scales each raw delay by a jitter
//! factor in [0.5, 1.5), supplied as a percentage drawn outside this
//! crate; the policy itself is a pure function of the retry state. The
//! strategy gives up after `max_attempts`, or never when configured
//! infinite (used for the initial connect, where the caller has no
//! fallback). Reconnect retries and per-command retries each carry their
//! own independent `RetryState`.

use vstd::prelude::*;

verus! {

/// The smaller of two values.
pub open spec fn min_int(a: int, b: int) -> int {
    if a <= b {
        a
    } else {
        b
    }
}

/// Raw backoff delay in milliseconds for an attempt:
/// `min(max_delay, base_delay * 2^attempt)`, as a doubling recurrence.
pub open spec fn spec_delay_ms(base: u64, max_delay: u64, attempt: nat) -> int
    decreases attempt,
{
    if attempt == 0 {
        min_int(base as int, max_delay as int)
    } else {
        min_int(2 * spec_delay_ms(base, max_delay, (attempt - 1) as nat), max_delay as int)
    }
}

/// The raw delay never leaves `[0, max_delay]`.
pub proof fn lemma_delay_bounds(base: u64, max_delay: u64, attempt: nat)
    ensures
        0 <= spec_delay_ms(base, max_delay, attempt) <= max_delay,
    decreases attempt,
{
    if attempt > 0 {
        lemma_delay_bounds(base, max_delay, (attempt - 1) as nat);
    }
}

/// The delay sequence is non-decreasing from one attempt to the next, up
/// to the cap.
pub proof fn lemma_delay_step(base: u64, max_delay: u64, attempt: nat)
    ensures
        spec_delay_ms(base, max_delay, attempt) <= spec_delay_ms(base, max_delay, attempt + 1),
{
    lemma_delay_bounds(base, max_delay, attempt);
}

/// The delay sequence is non-decreasing across any two attempts, and
/// bounded by the cap.
pub proof fn lemma_delay_monotone(base: u64, max_delay: u64, a: nat, b: nat)
    requires
        a <= b,
    ensures
        spec_delay_ms(base, max_delay, a) <= spec_delay_ms(base, max_delay, b) <= max_delay,
    decreases b - a,
{
    lemma_delay_bounds(base, max_delay, b);
    if a < b {
        lemma_delay_monotone(base, max_delay, a, (b - 1) as nat);
        lemma_delay_step(base, max_delay, (b - 1) as nat);
    }
}

/// Raw backoff delay for an attempt.
pub fn delay_ms(base: u64, max_delay: u64, attempt: u32) -> (d: u64)
    ensures
        d == spec_delay_ms(base, max_delay, attempt as nat),
{
    let mut d: u64 = if base <= max_delay {
        base
    } else {
        max_delay
    };
    let mut i: u32 = 0;
    while i < attempt
        invariant
            i <= attempt,
            d == spec_delay_ms(base, max_delay, i as nat),
            d <= max_delay,
        decreases attempt - i,
    {
        if d > max_delay / 2 {
            d = max_delay;
        } else {
            d = 2 * d;
        }
        i = i + 1;
    }
    d
}

/// A raw delay scaled by a jitter percentage. The percentage is drawn
/// outside this crate, anywhere in [50, 150), so the scaled delay lies in
/// [delay / 2, delay * 3 / 2).
pub open spec fn spec_jittered(delay: u64, jitter_percent: u64) -> int {
    delay * jitter_percent / 100
}

/// Scales a delay by a jitter percentage.
pub fn apply_jitter(delay: u64, jitter_percent: u64) -> (d: u64)
    requires
        50 <= jitter_percent < 150,
        delay <= u64::MAX as int / 150,
    ensures
        d == spec_jittered(delay, jitter_percent),
{
    proof {
        vstd::arithmetic::mul::lemma_mul_inequality(
            jitter_percent as int,
            150,
            delay as int,
        );
        vstd::arithmetic::div_mod::lemma_div_is_ordered(
            delay * jitter_percent,
            delay * 150,
            100,
        );
    }
    delay * jitter_percent / 100
}

/// A jittered delay stays within half and one-and-a-half of the raw
/// delay: it is bounded below by the raw delay scaled by 0.5 and above by
/// the raw delay scaled by 1.5.
pub proof fn lemma_jitter_bounds(delay: u64, jitter_percent: u64)
    requires
        50 <= jitter_percent < 150,
    ensures
        delay as int / 2 <= spec_jittered(delay, jitter_percent) <= delay as int * 3 / 2,
{
    vstd::arithmetic::mul::lemma_mul_inequality(50, jitter_percent as int, delay as int);
    vstd::arithmetic::mul::lemma_mul_inequality(jitter_percent as int, 150, delay as int);
    vstd::arithmetic::div_mod::lemma_div_is_ordered(
        delay * 50,
        delay * jitter_percent,
        100,
    );
    vstd::arithmetic::div_mod::lemma_div_is_ordered(
        delay * jitter_percent,
        delay * 150,
        100,
    );
    assert(delay * 50 == (delay as int / 2) * 100 + 50 * (delay as int % 2)) by (nonlinear_arith);
    assert(delay * 50 / 100 == delay as int / 2) by (nonlinear_arith);
    assert(delay * 150 == (delay as int * 3 / 2) * 100 + 50 * (delay as int * 3 % 2))
        by (nonlinear_arith);
    assert(delay * 150 / 100 == delay as int * 3 / 2) by (nonlinear_arith);
}

/// How many attempts the strategy makes before giving up, and the shape
/// of each delay. `max_attempts` of `None` means never give up.
pub struct RetryState {
    pub attempt_count: u32,
    pub base_delay_ms: u64,
    pub max_delay_ms: u64,
    pub max_attempts: Option<u32>,
}

/// What the strategy decides for one more failure.
#[derive(Clone, Copy, PartialEq, Eq, Structural, Debug)]
pub enum RetryDecision {
    /// Wait this many milliseconds, then try again.
    RetryAfter(u64),
    /// Stop: the attempts are exhausted.
    GiveUp,
}

/// Whether a state has attempts left.
pub open spec fn spec_attempts_left(s: RetryState) -> bool {
    match s.max_attempts {
        None => true,
        Some(m) => s.attempt_count < m,
    }
}

/// Decides retry-after or give-up for the next attempt, consuming one
/// attempt from the state. Gives up exactly when the configured attempts
/// are exhausted, and then changes nothing, so the give-up after the
/// final attempt is reported once and every later query repeats it.
pub fn next_retry(state: &mut RetryState, jitter_percent: u64) -> (d: RetryDecision)
    requires
        50 <= jitter_percent < 150,
        old(state).max_delay_ms <= u64::MAX as int / 150,
    ensures
        !spec_attempts_left(*old(state)) ==> d == RetryDecision::GiveUp && *final(state) == *old(
            state,
        ),
        spec_attempts_left(*old(state)) ==> d == RetryDecision::RetryAfter(
            spec_jittered(
                spec_delay_ms(
                    old(state).base_delay_ms,
                    old(state).max_delay_ms,
                    old(state).attempt_count as nat,
                ) as u64,
                jitter_percent,
            ) as u64,
        ),
        spec_attempts_left(*old(state)) ==> final(state).attempt_count == min_int(
            old(state).attempt_count + 1,
            u32::MAX as int,
        ),
        final(state).base_delay_ms == old(state).base_delay_ms,
        final(state).max_delay_ms == old(state).max_delay_ms,
        final(state).max_attempts == old(state).max_attempts,
{
    let attempts_left = match state.max_attempts {
        None => true,
        Some(m) => state.attempt_count < m,
    };
    if !attempts_left {
        return RetryDecision::GiveUp;
    }
    let raw = delay_ms(state.base_delay_ms, state.max_delay_ms, state.attempt_count);
    proof {
        lemma_delay_bounds(state.base_delay_ms, state.max_delay_ms, state.attempt_count as nat);
    }
    let jittered = apply_jitter(raw, jitter_percent);
    if state.attempt_count < u32::MAX {
        state.attempt_count = state.attempt_count + 1;
    }
    RetryDecision::RetryAfter(jittered)
}

} // verus!
