use vstd::prelude::*;

use crate::error::ContractError;

verus! {

/// Number of payout windows of length `window` that have fully elapsed
/// between `checkpoint` and `now`; a partial window counts for nothing.
pub open spec fn whole_windows(checkpoint: int, now: int, window: int) -> int {
    (now - checkpoint) / window
}

/// Balance after accruing `rate` units per whole window on top of `previous`.
pub open spec fn accrued_balance(checkpoint: int, now: int, window: int, rate: int, previous: int) -> int {
    previous + whole_windows(checkpoint, now, window) * rate
}

/// The checkpoint moved forward to the last window boundary at or before
/// `now`, so that the unfinished part of a window is carried over.
pub open spec fn advanced_checkpoint(checkpoint: int, now: int, window: int) -> int {
    checkpoint + whole_windows(checkpoint, now, window) * window
}

/// Brings an accrual checkpoint up to `now`: returns the new balance and the
/// new checkpoint, or `Overflow` when the balance does not fit in a `u128`.
pub fn accrue(
    checkpoint_time: u64,
    now: u64,
    payout_window: u64,
    rate: u128,
    previously_accrued: u128,
) -> (r: Result<(u128, u64), ContractError>)
    requires
        checkpoint_time <= now,
        payout_window > 0,
    ensures
        r is Ok <==> accrued_balance(
            checkpoint_time as int,
            now as int,
            payout_window as int,
            rate as int,
            previously_accrued as int,
        ) <= u128::MAX,
        r matches Ok((balance, checkpoint)) ==> balance == accrued_balance(
            checkpoint_time as int,
            now as int,
            payout_window as int,
            rate as int,
            previously_accrued as int,
        ) && checkpoint == advanced_checkpoint(
            checkpoint_time as int,
            now as int,
            payout_window as int,
        ),
        r matches Err(e) ==> e == (ContractError::Overflow {}),
{
    let elapsed: u64 = now - checkpoint_time;
    let windows: u64 = elapsed / payout_window;
    proof {
        lemma_windows_fit(elapsed as int, payout_window as int);
    }
    let span: u64 = windows * payout_window;
    let new_checkpoint: u64 = checkpoint_time + span;
    match (windows as u128).checked_mul(rate) {
        None => Err(ContractError::Overflow {}),
        Some(earned) => match earned.checked_add(previously_accrued) {
            None => Err(ContractError::Overflow {}),
            Some(balance) => Ok((balance, new_checkpoint)),
        },
    }
}

/// The whole windows of an interval never cover more than the interval.
pub proof fn lemma_windows_fit(elapsed: int, window: int)
    requires
        elapsed >= 0,
        window > 0,
    ensures
        0 <= (elapsed / window) * window <= elapsed,
        elapsed - (elapsed / window) * window < window,
{
    vstd::arithmetic::div_mod::lemma_fundamental_div_mod(elapsed, window);
    vstd::arithmetic::div_mod::lemma_mod_bound(elapsed, window);
    vstd::arithmetic::div_mod::lemma_div_pos_is_pos(elapsed, window);
    vstd::arithmetic::mul::lemma_mul_nonnegative(elapsed / window, window);
    vstd::arithmetic::mul::lemma_mul_is_commutative(elapsed / window, window);
}

} // verus!
