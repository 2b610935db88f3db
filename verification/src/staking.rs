use vstd::prelude::*;

use vstd::arithmetic::div_mod::{
    lemma_div_is_ordered, lemma_div_multiples_vanish, lemma_div_pos_is_pos,
};
use vstd::arithmetic::mul::{lemma_mul_inequality, lemma_mul_upper_bound};

use crate::cortex::{Cortex, StakingRound};
use crate::errors::PerpetualsError;
use crate::math::{checked_add, checked_as_u64, BPS_POWER};

verus! {

/// A stake account participates in reward rounds for at most one year; this
/// is what bounds the resolved-round history.
pub const MAX_AGE_SECONDS: i64 = 31_536_000;

/// Bound on the locked-stake list, keeping the account size deterministic.
pub const MAX_LOCKED_STAKES: usize = 32;

/// Seconds in one year, the lock commitment at which the reward multiplier
/// stops growing.
pub const SECONDS_PER_YEAR: u64 = 31_536_000;

/// The stake that can be withdrawn at any time; its reward weight is its
/// plain amount.
#[derive(Clone, Copy, Debug, PartialEq, Eq, Structural)]
pub struct LiquidStake {
    pub amount: u64,
    pub amount_with_multiplier: u64,
    pub stake_time: i64,
    pub claim_time: i64,
}

/// A stake committed for a fixed duration; its reward weight is its amount
/// scaled by a duration-dependent multiplier, fixed at creation.
#[derive(Clone, Copy, Debug, PartialEq, Eq, Structural)]
pub struct LockedStake {
    pub amount: u64,
    pub amount_with_multiplier: u64,
    pub stake_time: i64,
    pub claim_time: i64,
    pub lock_duration: u64,
}

/// A stake earns a round's reward exactly when its last-claim marker precedes
/// the round's opening: it existed before the round opened.
pub open spec fn stake_eligible(claim_time: i64, round: StakingRound) -> bool {
    claim_time < round.start_time
}

impl LiquidStake {
    pub fn qualifies_for_rewards_from(&self, staking_round: &StakingRound) -> (b: bool)
        ensures
            b == stake_eligible(self.claim_time, *staking_round),
    {
        self.claim_time < staking_round.start_time
    }
}

impl LockedStake {
    pub fn qualifies_for_rewards_from(&self, staking_round: &StakingRound) -> (b: bool)
        ensures
            b == stake_eligible(self.claim_time, *staking_round),
    {
        self.claim_time < staking_round.start_time
    }
}

/// One participant's stake record: one liquid stake and a bounded list of
/// locked stakes.
#[derive(Clone, Debug)]
pub struct Staking {
    pub liquid_stake: LiquidStake,
    pub locked_stakes: Vec<LockedStake>,
}

impl Staking {
    /// An account holding no stake at all.
    pub fn new() -> (r: Staking)
        ensures
            r.liquid_stake == (LiquidStake {
                amount: 0u64,
                amount_with_multiplier: 0u64,
                stake_time: 0i64,
                claim_time: 0i64,
            }),
            r.locked_stakes@ =~= Seq::<LockedStake>::empty(),
    {
        Staking {
            liquid_stake: LiquidStake {
                amount: 0,
                amount_with_multiplier: 0,
                stake_time: 0,
                claim_time: 0,
            },
            locked_stakes: Vec::new(),
        }
    }
}

/// Reward-weight multiplier for a lock commitment, in basis points: 1x for a
/// momentary lock, growing linearly to 2x at one year and capped there.
pub open spec fn lock_multiplier_bps_value(lock_duration: u64) -> int {
    let capped: int = if lock_duration > SECONDS_PER_YEAR {
        SECONDS_PER_YEAR as int
    } else {
        lock_duration as int
    };
    (BPS_POWER as int) + ((BPS_POWER as int) * capped) / (SECONDS_PER_YEAR as int)
}

pub fn lock_multiplier_bps(lock_duration: u64) -> (r: u64)
    ensures
        r == lock_multiplier_bps_value(lock_duration),
        BPS_POWER <= r <= 2 * BPS_POWER,
{
    let capped: u64 = if lock_duration > SECONDS_PER_YEAR {
        SECONDS_PER_YEAR
    } else {
        lock_duration
    };
    proof {
        lemma_div_pos_is_pos((BPS_POWER as int) * capped, SECONDS_PER_YEAR as int);
        lemma_mul_inequality(capped as int, SECONDS_PER_YEAR as int, BPS_POWER as int);
        assert((BPS_POWER as int) * capped == capped * (BPS_POWER as int));
        assert((BPS_POWER as int) * (SECONDS_PER_YEAR as int) == (SECONDS_PER_YEAR as int) * (
        BPS_POWER as int));
        lemma_div_is_ordered(
            (BPS_POWER as int) * capped,
            (SECONDS_PER_YEAR as int) * (BPS_POWER as int),
            SECONDS_PER_YEAR as int,
        );
        lemma_div_multiples_vanish(BPS_POWER as int, SECONDS_PER_YEAR as int);
    }
    let scaled: u64 = (BPS_POWER as u64) * capped / SECONDS_PER_YEAR;
    (BPS_POWER as u64) + scaled
}

/// Longer commitments never yield a smaller multiplier.
pub proof fn lemma_lock_multiplier_monotonic(duration_a: u64, duration_b: u64)
    requires
        duration_a <= duration_b,
    ensures
        lock_multiplier_bps_value(duration_a) <= lock_multiplier_bps_value(duration_b),
{
    let capped_a: int = if duration_a > SECONDS_PER_YEAR {
        SECONDS_PER_YEAR as int
    } else {
        duration_a as int
    };
    let capped_b: int = if duration_b > SECONDS_PER_YEAR {
        SECONDS_PER_YEAR as int
    } else {
        duration_b as int
    };
    lemma_mul_inequality(capped_a, capped_b, BPS_POWER as int);
    assert(capped_a * (BPS_POWER as int) == (BPS_POWER as int) * capped_a);
    assert(capped_b * (BPS_POWER as int) == (BPS_POWER as int) * capped_b);
    lemma_div_is_ordered(
        (BPS_POWER as int) * capped_a,
        (BPS_POWER as int) * capped_b,
        SECONDS_PER_YEAR as int,
    );
}

/// Reward weight of a locked amount: the amount scaled by the duration
/// multiplier, rounded toward zero.
pub open spec fn amount_with_multiplier_value(amount: u64, lock_duration: u64) -> int {
    (amount * lock_multiplier_bps_value(lock_duration)) / (BPS_POWER as int)
}

/// Computes the reward weight of a locked amount; fails exactly when it does
/// not fit a `u64`.
pub fn compute_amount_with_multiplier(amount: u64, lock_duration: u64) -> (r: Result<
    u64,
    PerpetualsError,
>)
    ensures
        r is Ok <==> amount_with_multiplier_value(amount, lock_duration) <= u64::MAX,
        r is Ok ==> r->Ok_0 == amount_with_multiplier_value(amount, lock_duration),
        r is Err ==> r->Err_0 == PerpetualsError::ArithmeticOverflow,
{
    let multiplier = lock_multiplier_bps(lock_duration);
    proof {
        lemma_mul_upper_bound(amount as int, u64::MAX as int, multiplier as int, 2 * BPS_POWER);
        lemma_div_pos_is_pos(amount * multiplier, BPS_POWER as int);
    }
    let wide: u128 = (amount as u128) * (multiplier as u128);
    checked_as_u64(wide / BPS_POWER)
}

// Stake mutation: adding stake registers its reward weight in the round
// currently collecting new stake (the next round), so that it starts earning
// only once that round opens; removing stake takes the weight out of the same
// bucket. Each operation refreshes the entry's last-claim marker to `now` and
// either completes fully or fails without touching any state.

/// Adds `amount` to the account's liquid stake and registers the same weight
/// in the next round.
pub fn add_liquid_stake(cortex: &mut Cortex, staking: &mut Staking, amount: u64, now: i64) -> (r:
    Result<(), PerpetualsError>)
    requires
        old(cortex).wf(),
    ensures
        final(cortex).wf(),
        r is Ok <==> {
            &&& old(staking).liquid_stake.amount + amount <= u64::MAX
            &&& old(staking).liquid_stake.amount_with_multiplier + amount <= u64::MAX
            &&& old(cortex).next_staking_round.total_stake + amount <= u64::MAX
        },
        r is Ok ==> {
            &&& final(staking).liquid_stake == (LiquidStake {
                amount: (old(staking).liquid_stake.amount + amount) as u64,
                amount_with_multiplier: (old(staking).liquid_stake.amount_with_multiplier
                    + amount) as u64,
                stake_time: now,
                claim_time: now,
            })
            &&& final(staking).locked_stakes@ == old(staking).locked_stakes@
            &&& final(cortex).next_staking_round == (StakingRound {
                total_stake: (old(cortex).next_staking_round.total_stake + amount) as u64,
                ..old(cortex).next_staking_round
            })
            &&& final(cortex).current_staking_round == old(cortex).current_staking_round
            &&& final(cortex).resolved_staking_rounds@ == old(cortex).resolved_staking_rounds@
            &&& final(cortex).resolved_reward_token_amount == old(
                cortex,
            ).resolved_reward_token_amount
            &&& final(cortex).resolved_stake_token_amount == old(cortex).resolved_stake_token_amount
        },
        r is Err ==> *final(cortex) == *old(cortex) && *final(staking) == *old(staking) && r->Err_0
            == PerpetualsError::ArithmeticOverflow,
{
    let new_amount = match checked_add(staking.liquid_stake.amount, amount) {
        Ok(v) => v,
        Err(e) => {
            return Err(e);
        },
    };
    let new_weight = match checked_add(staking.liquid_stake.amount_with_multiplier, amount) {
        Ok(v) => v,
        Err(e) => {
            return Err(e);
        },
    };
    let new_total = match checked_add(cortex.next_staking_round.total_stake, amount) {
        Ok(v) => v,
        Err(e) => {
            return Err(e);
        },
    };
    staking.liquid_stake = LiquidStake {
        amount: new_amount,
        amount_with_multiplier: new_weight,
        stake_time: now,
        claim_time: now,
    };
    cortex.next_staking_round.total_stake = new_total;
    Ok(())
}

/// Creates a locked stake for `amount` committed over `lock_duration`
/// seconds and registers its multiplied weight in the next round.
pub fn add_locked_stake(
    cortex: &mut Cortex,
    staking: &mut Staking,
    amount: u64,
    lock_duration: u64,
    now: i64,
) -> (r: Result<(), PerpetualsError>)
    requires
        old(cortex).wf(),
    ensures
        final(cortex).wf(),
        r matches Err(e) && e == PerpetualsError::StorageResizeFailure <==> old(
            staking,
        ).locked_stakes@.len() >= MAX_LOCKED_STAKES,
        r is Ok <==> {
            &&& old(staking).locked_stakes@.len() < MAX_LOCKED_STAKES
            &&& amount_with_multiplier_value(amount, lock_duration) <= u64::MAX
            &&& old(cortex).next_staking_round.total_stake + amount_with_multiplier_value(
                amount,
                lock_duration,
            ) <= u64::MAX
        },
        r is Ok ==> {
            &&& final(staking).locked_stakes@ == old(staking).locked_stakes@.push(
                LockedStake {
                    amount,
                    amount_with_multiplier: amount_with_multiplier_value(
                        amount,
                        lock_duration,
                    ) as u64,
                    stake_time: now,
                    claim_time: now,
                    lock_duration,
                },
            )
            &&& final(staking).liquid_stake == old(staking).liquid_stake
            &&& final(cortex).next_staking_round == (StakingRound {
                total_stake: (old(cortex).next_staking_round.total_stake
                    + amount_with_multiplier_value(amount, lock_duration)) as u64,
                ..old(cortex).next_staking_round
            })
            &&& final(cortex).current_staking_round == old(cortex).current_staking_round
            &&& final(cortex).resolved_staking_rounds@ == old(cortex).resolved_staking_rounds@
            &&& final(cortex).resolved_reward_token_amount == old(
                cortex,
            ).resolved_reward_token_amount
            &&& final(cortex).resolved_stake_token_amount == old(cortex).resolved_stake_token_amount
        },
        r is Err ==> *final(cortex) == *old(cortex) && *final(staking) == *old(staking),
{
    if staking.locked_stakes.len() >= MAX_LOCKED_STAKES {
        return Err(PerpetualsError::StorageResizeFailure);
    }
    let weight = match compute_amount_with_multiplier(amount, lock_duration) {
        Ok(v) => v,
        Err(e) => {
            return Err(e);
        },
    };
    let new_total = match checked_add(cortex.next_staking_round.total_stake, weight) {
        Ok(v) => v,
        Err(e) => {
            return Err(e);
        },
    };
    staking.locked_stakes.push(
        LockedStake {
            amount,
            amount_with_multiplier: weight,
            stake_time: now,
            claim_time: now,
            lock_duration,
        },
    );
    cortex.next_staking_round.total_stake = new_total;
    Ok(())
}

/// Withdraws `amount` from the account's liquid stake, taking the same
/// weight out of the next round.
pub fn remove_liquid_stake(cortex: &mut Cortex, staking: &mut Staking, amount: u64) -> (r: Result<
    (),
    PerpetualsError,
>)
    requires
        old(cortex).wf(),
    ensures
        final(cortex).wf(),
        r is Ok <==> {
            &&& amount <= old(staking).liquid_stake.amount
            &&& amount <= old(staking).liquid_stake.amount_with_multiplier
            &&& amount <= old(cortex).next_staking_round.total_stake
        },
        r is Ok ==> {
            &&& final(staking).liquid_stake == (LiquidStake {
                amount: (old(staking).liquid_stake.amount - amount) as u64,
                amount_with_multiplier: (old(staking).liquid_stake.amount_with_multiplier
                    - amount) as u64,
                ..old(staking).liquid_stake
            })
            &&& final(staking).locked_stakes@ == old(staking).locked_stakes@
            &&& final(cortex).next_staking_round == (StakingRound {
                total_stake: (old(cortex).next_staking_round.total_stake - amount) as u64,
                ..old(cortex).next_staking_round
            })
            &&& final(cortex).current_staking_round == old(cortex).current_staking_round
            &&& final(cortex).resolved_staking_rounds@ == old(cortex).resolved_staking_rounds@
            &&& final(cortex).resolved_reward_token_amount == old(
                cortex,
            ).resolved_reward_token_amount
            &&& final(cortex).resolved_stake_token_amount == old(cortex).resolved_stake_token_amount
        },
        r is Err ==> *final(cortex) == *old(cortex) && *final(staking) == *old(staking) && r->Err_0
            == PerpetualsError::ArithmeticUnderflow,
{
    if amount > staking.liquid_stake.amount || amount
        > staking.liquid_stake.amount_with_multiplier || amount
        > cortex.next_staking_round.total_stake {
        return Err(PerpetualsError::ArithmeticUnderflow);
    }
    staking.liquid_stake = LiquidStake {
        amount: staking.liquid_stake.amount - amount,
        amount_with_multiplier: staking.liquid_stake.amount_with_multiplier - amount,
        ..staking.liquid_stake
    };
    cortex.next_staking_round.total_stake = cortex.next_staking_round.total_stake - amount;
    Ok(())
}

/// Withdraws the locked stake at `stake_index`, taking its multiplied weight
/// out of the next round.
pub fn remove_locked_stake(cortex: &mut Cortex, staking: &mut Staking, stake_index: usize) -> (r:
    Result<(), PerpetualsError>)
    requires
        old(cortex).wf(),
    ensures
        final(cortex).wf(),
        r matches Err(e) && e == PerpetualsError::StakeNotFound <==> old(
            staking,
        ).locked_stakes@.len() <= stake_index,
        r is Ok <==> stake_index < old(staking).locked_stakes@.len() && old(
            staking,
        ).locked_stakes@[stake_index as int].amount_with_multiplier <= old(
            cortex,
        ).next_staking_round.total_stake,
        r is Ok ==> {
            &&& final(staking).locked_stakes@ == old(staking).locked_stakes@.remove(
                stake_index as int,
            )
            &&& final(staking).liquid_stake == old(staking).liquid_stake
            &&& final(cortex).next_staking_round == (StakingRound {
                total_stake: (old(cortex).next_staking_round.total_stake - old(
                    staking,
                ).locked_stakes@[stake_index as int].amount_with_multiplier) as u64,
                ..old(cortex).next_staking_round
            })
            &&& final(cortex).current_staking_round == old(cortex).current_staking_round
            &&& final(cortex).resolved_staking_rounds@ == old(cortex).resolved_staking_rounds@
            &&& final(cortex).resolved_reward_token_amount == old(
                cortex,
            ).resolved_reward_token_amount
            &&& final(cortex).resolved_stake_token_amount == old(cortex).resolved_stake_token_amount
        },
        r is Err ==> *final(cortex) == *old(cortex) && *final(staking) == *old(staking),
{
    if stake_index >= staking.locked_stakes.len() {
        return Err(PerpetualsError::StakeNotFound);
    }
    let weight = staking.locked_stakes[stake_index].amount_with_multiplier;
    if weight > cortex.next_staking_round.total_stake {
        return Err(PerpetualsError::ArithmeticUnderflow);
    }
    staking.locked_stakes.remove(stake_index);
    cortex.next_staking_round.total_stake = cortex.next_staking_round.total_stake - weight;
    Ok(())
}

} // verus!
