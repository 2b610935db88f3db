use vstd::prelude::*;

use crate::errors::PerpetualsError;
use crate::math::checked_sub;

verus! {

// Opening a position with a swap: when the funding token differs from the
// collateral token, the collateral is first swapped, and the position is
// opened with whatever the swap yielded; otherwise the caller's collateral is
// used as is. The decisions live here; moving the tokens does not.

/// Collateral actually received from a swap, measured as the growth of the
/// collateral account across it; fails loudly if the balance shrank.
pub fn swap_collateral_delta(balance_before: u64, balance_after: u64) -> (r: Result<
    u64,
    PerpetualsError,
>)
    ensures
        r is Ok <==> balance_before <= balance_after,
        r is Ok ==> r->Ok_0 == balance_after - balance_before,
        r is Err ==> r->Err_0 == PerpetualsError::ArithmeticUnderflow,
{
    checked_sub(balance_after, balance_before)
}

/// What the position opening works with: the swapped amount and the swap's
/// two fee legs where a swap was needed, or the caller's collateral and no
/// fees where the funding token already is the collateral token.
pub fn open_position_collateral(
    swap_required: bool,
    params_collateral: u64,
    swap_amount_out: u64,
    swap_fee_in: u64,
    swap_fee_out: u64,
) -> (r: (u64, u64, u64))
    ensures
        r == if swap_required {
            (swap_amount_out, swap_fee_in, swap_fee_out)
        } else {
            (params_collateral, 0u64, 0u64)
        },
{
    if swap_required {
        (swap_amount_out, swap_fee_in, swap_fee_out)
    } else {
        (params_collateral, 0, 0)
    }
}

} // verus!
