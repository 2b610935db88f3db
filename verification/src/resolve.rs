use vstd::prelude::*;

use crate::cortex::{Cortex, StakingRound, MAX_RESOLVED_ROUNDS, ROUND_MIN_DURATION_SECONDS};
use crate::errors::PerpetualsError;
use crate::math::{
    checked_add, checked_decimal_div, decimal_div_fits, decimal_div_value, RATE_DECIMALS,
};

verus! {

/// The current round may be resolved once the minimum round duration has
/// passed since it opened.
pub open spec fn round_resolvable(cortex: Cortex, now: i64) -> bool {
    now >= cortex.current_staking_round.start_time + ROUND_MIN_DURATION_SECONDS
}

/// Rate of a resolved round: the reward amount accrued to the round divided
/// by its registered stake, rescaled to `RATE_DECIMALS`, rounded toward zero.
pub open spec fn resolved_rate_value(
    reward: u64,
    total_stake: u64,
    stake_decimals: u8,
    reward_decimals: u8,
) -> int {
    decimal_div_value(
        reward,
        -(reward_decimals as int),
        total_stake,
        -(stake_decimals as int),
        -(RATE_DECIMALS as int),
    )
}

/// Exactly when `resolve_staking_round` succeeds.
pub open spec fn resolve_ok(cortex: Cortex, round_reward_token_amount: u64, now: i64) -> bool {
    &&& round_resolvable(cortex, now)
    &&& cortex.resolved_staking_rounds@.len() < MAX_RESOLVED_ROUNDS as int
    &&& (cortex.current_staking_round.total_stake > 0 ==> {
        &&& decimal_div_fits(
            round_reward_token_amount,
            -(cortex.stake_reward_token_decimals as int),
            cortex.current_staking_round.total_stake,
            -(cortex.stake_token_decimals as int),
            -(RATE_DECIMALS as int),
        )
        &&& cortex.resolved_reward_token_amount + round_reward_token_amount <= u64::MAX
        &&& cortex.resolved_stake_token_amount + cortex.current_staking_round.total_stake
            <= u64::MAX
    })
}

/// The implicit reward pool backing the currently accruing round: whatever
/// the reward vault holds beyond what resolved rounds still owe. Fails
/// exactly when the vault holds less than the resolved rounds' aggregate, a
/// bookkeeping violation.
pub fn unresolved_reward_pool(cortex: &Cortex, vault_balance: u64) -> (r: Result<
    u64,
    PerpetualsError,
>)
    ensures
        r is Ok <==> cortex.resolved_reward_token_amount <= vault_balance,
        r is Ok ==> r->Ok_0 == vault_balance - cortex.resolved_reward_token_amount,
        r is Err ==> r->Err_0 == PerpetualsError::ArithmeticUnderflow,
{
    crate::math::checked_sub(vault_balance, cortex.resolved_reward_token_amount)
}

/// Closes the current round and opens a new one.
///
/// `round_reward_token_amount` is the reward-token amount accrued to the
/// closing round by fee events (the implicit pool backing the round); `now`
/// is the host ledger's timestamp. Callable by any party: the preconditions
/// of the protocol are checked, not assumed.
///
/// On success: the closing round, with its rate fixed, is appended to the
/// resolved list (its rate stays zero when it holds no stake, and no reward
/// is allocated to it); the next round is promoted, opening at `now` with
/// the stake it collected; a fresh round starts collecting new stake; and,
/// for a round that held stake, the claimable aggregates grow by the round's
/// reward and stake figures. The rate fixed here is what bounds the round's
/// lifetime payouts by its allocation
/// (`crate::claim::lemma_round_reward_conservation`).
///
/// On failure nothing changes: the round cannot be resolved yet
/// (`RoundNotYetResolvable`), the resolved list is full
/// (`StorageResizeFailure`), or the rate or aggregate arithmetic leaves
/// `u64` range (`ArithmeticOverflow`).
pub fn resolve_staking_round(cortex: &mut Cortex, round_reward_token_amount: u64, now: i64) -> (r:
    Result<(), PerpetualsError>)
    requires
        old(cortex).wf(),
    ensures
        final(cortex).wf(),
        r is Err ==> *final(cortex) == *old(cortex),
        r is Ok <==> resolve_ok(*old(cortex), round_reward_token_amount, now),
        (r matches Err(e) && e == PerpetualsError::RoundNotYetResolvable) <==> !round_resolvable(
            *old(cortex),
            now,
        ),
        (r matches Err(e) && e == PerpetualsError::StorageResizeFailure) <==> (round_resolvable(
            *old(cortex),
            now,
        ) && old(cortex).resolved_staking_rounds@.len() >= MAX_RESOLVED_ROUNDS as int),
        r is Ok ==> {
            &&& final(cortex).resolved_staking_rounds@ == old(
                cortex,
            ).resolved_staking_rounds@.push(
                StakingRound {
                    start_time: old(cortex).current_staking_round.start_time,
                    rate: if old(cortex).current_staking_round.total_stake == 0 {
                        0u64
                    } else {
                        resolved_rate_value(
                            round_reward_token_amount,
                            old(cortex).current_staking_round.total_stake,
                            old(cortex).stake_token_decimals,
                            old(cortex).stake_reward_token_decimals,
                        ) as u64
                    },
                    total_stake: old(cortex).current_staking_round.total_stake,
                    total_claim: 0u64,
                },
            )
            &&& final(cortex).current_staking_round == (StakingRound {
                start_time: now,
                rate: 0u64,
                total_stake: old(cortex).next_staking_round.total_stake,
                total_claim: 0u64,
            })
            &&& final(cortex).next_staking_round == StakingRound::new_spec(now)
            &&& final(cortex).resolved_reward_token_amount == if old(
                cortex,
            ).current_staking_round.total_stake == 0 {
                old(cortex).resolved_reward_token_amount as int
            } else {
                old(cortex).resolved_reward_token_amount + round_reward_token_amount
            }
            &&& final(cortex).resolved_stake_token_amount == if old(
                cortex,
            ).current_staking_round.total_stake == 0 {
                old(cortex).resolved_stake_token_amount as int
            } else {
                old(cortex).resolved_stake_token_amount + old(
                    cortex,
                ).current_staking_round.total_stake
            }
            &&& final(cortex).inception_epoch == old(cortex).inception_epoch
            &&& final(cortex).stake_token_decimals == old(cortex).stake_token_decimals
            &&& final(cortex).stake_reward_token_decimals == old(
                cortex,
            ).stake_reward_token_decimals
        },
{
    let resolvable = match cortex.current_staking_round_is_resolvable(now) {
        Ok(b) => b,
        Err(_) => false,
    };
    if !resolvable {
        return Err(PerpetualsError::RoundNotYetResolvable);
    }
    if cortex.resolved_staking_rounds.len() >= MAX_RESOLVED_ROUNDS {
        return Err(PerpetualsError::StorageResizeFailure);
    }
    let total_stake = cortex.current_staking_round.total_stake;
    let rate: u64;
    let new_reward_aggregate: u64;
    let new_stake_aggregate: u64;
    if total_stake == 0 {
        rate = 0;
        new_reward_aggregate = cortex.resolved_reward_token_amount;
        new_stake_aggregate = cortex.resolved_stake_token_amount;
    } else {
        rate = match checked_decimal_div(
            round_reward_token_amount,
            -(cortex.stake_reward_token_decimals as i32),
            total_stake,
            -(cortex.stake_token_decimals as i32),
            -(RATE_DECIMALS as i32),
        ) {
            Ok(v) => v,
            Err(e) => {
                return Err(e);
            },
        };
        new_reward_aggregate = match checked_add(
            cortex.resolved_reward_token_amount,
            round_reward_token_amount,
        ) {
            Ok(v) => v,
            Err(e) => {
                return Err(e);
            },
        };
        new_stake_aggregate = match checked_add(cortex.resolved_stake_token_amount, total_stake) {
            Ok(v) => v,
            Err(e) => {
                return Err(e);
            },
        };
    }
    let resolved_round = StakingRound {
        start_time: cortex.current_staking_round.start_time,
        rate,
        total_stake,
        total_claim: 0,
    };
    cortex.resolved_staking_rounds.push(resolved_round);
    cortex.resolved_reward_token_amount = new_reward_aggregate;
    cortex.resolved_stake_token_amount = new_stake_aggregate;
    cortex.current_staking_round = StakingRound {
        start_time: now,
        rate: 0,
        total_stake: cortex.next_staking_round.total_stake,
        total_claim: 0,
    };
    cortex.next_staking_round = StakingRound::new(now);
    Ok(())
}

} // verus!
