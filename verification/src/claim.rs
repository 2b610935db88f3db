use vstd::prelude::*;

use vstd::arithmetic::div_mod::{
    lemma_div_is_ordered, lemma_div_multiples_vanish, lemma_div_pos_is_pos,
    lemma_fundamental_div_mod, lemma_mod_bound,
};
use vstd::arithmetic::mul::{lemma_mul_inequality, lemma_mul_upper_bound};

use crate::cortex::{Cortex, StakingRound};
use crate::errors::PerpetualsError;
use crate::math::{
    checked_add, checked_decimal_mul, checked_sub, checked_sub_i64, decimal_mul_fits,
    decimal_mul_value, lemma_decimal_mul_value_nonneg, lemma_pow10_positive, pow10, BPS_POWER,
    RATE_DECIMALS,
};
use crate::resolve::resolved_rate_value;
use crate::staking::{stake_eligible, LiquidStake, LockedStake, Staking};

verus! {

/// Reward owed to a stake of weight `amount` by a round at `rate`: the weight
/// at stake decimals times the rate at `RATE_DECIMALS`, rescaled to reward
/// decimals, rounded toward zero.
pub open spec fn stake_reward_value(
    amount: u64,
    rate: u64,
    stake_decimals: u8,
    reward_decimals: u8,
) -> int {
    decimal_mul_value(
        amount,
        -(stake_decimals as int),
        rate,
        -(RATE_DECIMALS as int),
        -(reward_decimals as int),
    )
}

/// Whether that reward is computable within `u64` range.
pub open spec fn stake_reward_fits(
    amount: u64,
    rate: u64,
    stake_decimals: u8,
    reward_decimals: u8,
) -> bool {
    decimal_mul_fits(
        amount,
        -(stake_decimals as int),
        rate,
        -(RATE_DECIMALS as int),
        -(reward_decimals as int),
    )
}

pub proof fn lemma_stake_reward_nonneg(
    amount: u64,
    rate: u64,
    stake_decimals: u8,
    reward_decimals: u8,
)
    ensures
        0 <= stake_reward_value(amount, rate, stake_decimals, reward_decimals),
{
    lemma_decimal_mul_value_nonneg(
        amount,
        -(stake_decimals as int),
        rate,
        -(RATE_DECIMALS as int),
        -(reward_decimals as int),
    );
}

// Sums over the locked-stake list, per round. Only stakes whose last-claim
// marker precedes the round's opening take part.

/// Total reward the locked stakes earn from `round`.
pub open spec fn locked_rewards(
    stakes: Seq<LockedStake>,
    round: StakingRound,
    stake_decimals: u8,
    reward_decimals: u8,
) -> int
    decreases stakes.len(),
{
    if stakes.len() == 0 {
        0
    } else {
        locked_rewards(stakes.drop_last(), round, stake_decimals, reward_decimals) + if stake_eligible(
            stakes.last().claim_time,
            round,
        ) {
            stake_reward_value(
                stakes.last().amount_with_multiplier,
                round.rate,
                stake_decimals,
                reward_decimals,
            )
        } else {
            0
        }
    }
}

/// Total stake weight the locked stakes settle against `round`.
pub open spec fn locked_settled(stakes: Seq<LockedStake>, round: StakingRound) -> int
    decreases stakes.len(),
{
    if stakes.len() == 0 {
        0
    } else {
        locked_settled(stakes.drop_last(), round) + if stake_eligible(
            stakes.last().claim_time,
            round,
        ) {
            stakes.last().amount_with_multiplier as int
        } else {
            0
        }
    }
}

/// Every eligible locked stake's reward is computable.
pub open spec fn locked_rewards_fit(
    stakes: Seq<LockedStake>,
    round: StakingRound,
    stake_decimals: u8,
    reward_decimals: u8,
) -> bool
    decreases stakes.len(),
{
    stakes.len() == 0 || {
        &&& locked_rewards_fit(stakes.drop_last(), round, stake_decimals, reward_decimals)
        &&& (stake_eligible(stakes.last().claim_time, round) ==> stake_reward_fits(
            stakes.last().amount_with_multiplier,
            round.rate,
            stake_decimals,
            reward_decimals,
        ))
    }
}

/// Combined weight of all locked stakes, eligible or not.
pub open spec fn locked_amounts(stakes: Seq<LockedStake>) -> int
    decreases stakes.len(),
{
    if stakes.len() == 0 {
        0
    } else {
        locked_amounts(stakes.drop_last()) + stakes.last().amount_with_multiplier
    }
}

/// One scan step: extending a prefix by one stake adds exactly that stake's
/// contribution to each sum.
pub proof fn lemma_locked_take_step(
    stakes: Seq<LockedStake>,
    round: StakingRound,
    stake_decimals: u8,
    reward_decimals: u8,
    i: int,
)
    requires
        0 <= i < stakes.len(),
    ensures
        locked_rewards(stakes.take(i + 1), round, stake_decimals, reward_decimals)
            == locked_rewards(stakes.take(i), round, stake_decimals, reward_decimals) + if stake_eligible(
            stakes[i].claim_time,
            round,
        ) {
            stake_reward_value(
                stakes[i].amount_with_multiplier,
                round.rate,
                stake_decimals,
                reward_decimals,
            )
        } else {
            0
        },
        locked_settled(stakes.take(i + 1), round) == locked_settled(stakes.take(i), round)
            + if stake_eligible(stakes[i].claim_time, round) {
            stakes[i].amount_with_multiplier as int
        } else {
            0
        },
        locked_rewards_fit(stakes.take(i + 1), round, stake_decimals, reward_decimals) <==> (
        locked_rewards_fit(stakes.take(i), round, stake_decimals, reward_decimals) && (
        stake_eligible(stakes[i].claim_time, round) ==> stake_reward_fits(
            stakes[i].amount_with_multiplier,
            round.rate,
            stake_decimals,
            reward_decimals,
        ))),
        locked_amounts(stakes.take(i + 1)) == locked_amounts(stakes.take(i))
            + stakes[i].amount_with_multiplier,
{
    assert(stakes.take(i + 1).drop_last() =~= stakes.take(i));
    assert(stakes.take(i + 1).last() == stakes[i]);
}

/// The locked sums are never negative.
pub proof fn lemma_locked_sums_nonneg(
    stakes: Seq<LockedStake>,
    round: StakingRound,
    stake_decimals: u8,
    reward_decimals: u8,
)
    ensures
        0 <= locked_rewards(stakes, round, stake_decimals, reward_decimals),
        0 <= locked_settled(stakes, round),
        0 <= locked_amounts(stakes),
    decreases stakes.len(),
{
    if stakes.len() > 0 {
        lemma_locked_sums_nonneg(stakes.drop_last(), round, stake_decimals, reward_decimals);
        lemma_stake_reward_nonneg(
            stakes.last().amount_with_multiplier,
            round.rate,
            stake_decimals,
            reward_decimals,
        );
    }
}

/// A prefix never sums to more than the whole list.
pub proof fn lemma_locked_prefix_le(
    stakes: Seq<LockedStake>,
    round: StakingRound,
    stake_decimals: u8,
    reward_decimals: u8,
    i: int,
)
    requires
        0 <= i <= stakes.len(),
    ensures
        locked_rewards(stakes.take(i), round, stake_decimals, reward_decimals) <= locked_rewards(
            stakes,
            round,
            stake_decimals,
            reward_decimals,
        ),
        locked_settled(stakes.take(i), round) <= locked_settled(stakes, round),
        locked_amounts(stakes.take(i)) <= locked_amounts(stakes),
    decreases stakes.len() - i,
{
    if i == stakes.len() {
        assert(stakes.take(i) =~= stakes);
    } else {
        lemma_locked_take_step(stakes, round, stake_decimals, reward_decimals, i);
        lemma_stake_reward_nonneg(
            stakes[i].amount_with_multiplier,
            round.rate,
            stake_decimals,
            reward_decimals,
        );
        lemma_locked_prefix_le(stakes, round, stake_decimals, reward_decimals, i + 1);
    }
}

// Per-round totals over the whole account: the locked stakes plus the liquid
// stake.

/// Reward owed to the whole account by one round. A round that registered no
/// stake owes nothing: no reward was allocated to it.
pub open spec fn round_rewards(
    staking: Staking,
    round: StakingRound,
    stake_decimals: u8,
    reward_decimals: u8,
) -> int {
    if round.total_stake == 0 {
        0
    } else {
        locked_rewards(staking.locked_stakes@, round, stake_decimals, reward_decimals)
            + if stake_eligible(staking.liquid_stake.claim_time, round) {
            stake_reward_value(
                staking.liquid_stake.amount_with_multiplier,
                round.rate,
                stake_decimals,
                reward_decimals,
            )
        } else {
            0
        }
    }
}

/// Stake weight the whole account settles against one round; nothing settles
/// against a round that registered no stake.
pub open spec fn round_settled(staking: Staking, round: StakingRound) -> int {
    if round.total_stake == 0 {
        0
    } else {
        locked_settled(staking.locked_stakes@, round) + if stake_eligible(
            staking.liquid_stake.claim_time,
            round,
        ) {
            staking.liquid_stake.amount_with_multiplier as int
        } else {
            0
        }
    }
}

/// Every eligible stake's reward against one round is computable; a round
/// that registered no stake computes nothing.
pub open spec fn round_fits(
    staking: Staking,
    round: StakingRound,
    stake_decimals: u8,
    reward_decimals: u8,
) -> bool {
    round.total_stake == 0 || {
        &&& locked_rewards_fit(staking.locked_stakes@, round, stake_decimals, reward_decimals)
        &&& (stake_eligible(staking.liquid_stake.claim_time, round) ==> stake_reward_fits(
            staking.liquid_stake.amount_with_multiplier,
            round.rate,
            stake_decimals,
            reward_decimals,
        ))
    }
}

pub proof fn lemma_round_sums_nonneg(
    staking: Staking,
    round: StakingRound,
    stake_decimals: u8,
    reward_decimals: u8,
)
    ensures
        0 <= round_rewards(staking, round, stake_decimals, reward_decimals),
        0 <= round_settled(staking, round),
{
    lemma_locked_sums_nonneg(staking.locked_stakes@, round, stake_decimals, reward_decimals);
    lemma_stake_reward_nonneg(
        staking.liquid_stake.amount_with_multiplier,
        round.rate,
        stake_decimals,
        reward_decimals,
    );
}

/// Scans the account against one resolved round: the reward owed and the
/// stake weight settled.
///
/// Succeeds exactly when every eligible stake's reward is computable, the
/// round's reward total fits a `u64`, and settling would not push the round's
/// claimed weight past its registered stake; nothing is mutated either way.
pub fn process_round_for_account(
    round: &StakingRound,
    staking: &Staking,
    stake_decimals: u8,
    reward_decimals: u8,
) -> (r: Result<(u64, u64), PerpetualsError>)
    ensures
        r is Ok <==> {
            &&& round_fits(*staking, *round, stake_decimals, reward_decimals)
            &&& round_rewards(*staking, *round, stake_decimals, reward_decimals) <= u64::MAX
            &&& round.total_claim + round_settled(*staking, *round) <= round.total_stake
        },
        r is Ok ==> r->Ok_0.0 == round_rewards(*staking, *round, stake_decimals, reward_decimals)
            && r->Ok_0.1 == round_settled(*staking, *round),
        r is Err ==> r->Err_0 == PerpetualsError::ArithmeticOverflow,
{
    let rd = *round;
    if rd.total_stake == 0 {
        // Nothing was registered, so nothing is owed and nothing settles;
        // only a round already claimed past zero is inconsistent.
        if rd.total_claim == 0 {
            return Ok((0, 0));
        } else {
            return Err(PerpetualsError::ArithmeticOverflow);
        }
    }
    let mut rewards: u64 = 0;
    let mut settled: u64 = 0;
    let mut k: usize = 0;
    let stakes_len = staking.locked_stakes.len();
    while k < stakes_len
        invariant
            0 <= k <= stakes_len,
            stakes_len == staking.locked_stakes@.len(),
            rd == *round,
            rd.total_stake != 0,
            rewards == locked_rewards(
                staking.locked_stakes@.take(k as int),
                rd,
                stake_decimals,
                reward_decimals,
            ),
            settled == locked_settled(staking.locked_stakes@.take(k as int), rd),
            locked_rewards_fit(
                staking.locked_stakes@.take(k as int),
                rd,
                stake_decimals,
                reward_decimals,
            ),
        decreases stakes_len - k,
    {
        let stake = staking.locked_stakes[k];
        proof {
            lemma_locked_take_step(
                staking.locked_stakes@,
                rd,
                stake_decimals,
                reward_decimals,
                k as int,
            );
        }
        if stake.qualifies_for_rewards_from(round) {
            let stake_reward = match checked_decimal_mul(
                stake.amount_with_multiplier,
                -(stake_decimals as i32),
                rd.rate,
                -(RATE_DECIMALS as i32),
                -(reward_decimals as i32),
            ) {
                Ok(v) => v,
                Err(e) => {
                    proof {
                        lemma_locked_fit_whole(
                            staking.locked_stakes@,
                            rd,
                            stake_decimals,
                            reward_decimals,
                            k as int,
                        );
                    }
                    return Err(e);
                },
            };
            rewards = match checked_add(rewards, stake_reward) {
                Ok(v) => v,
                Err(e) => {
                    proof {
                        lemma_locked_prefix_le(
                            staking.locked_stakes@,
                            rd,
                            stake_decimals,
                            reward_decimals,
                            k as int + 1,
                        );
                        lemma_stake_reward_nonneg(
                            staking.liquid_stake.amount_with_multiplier,
                            rd.rate,
                            stake_decimals,
                            reward_decimals,
                        );
                    }
                    return Err(e);
                },
            };
            settled = match checked_add(settled, stake.amount_with_multiplier) {
                Ok(v) => v,
                Err(e) => {
                    proof {
                        lemma_locked_prefix_le(
                            staking.locked_stakes@,
                            rd,
                            stake_decimals,
                            reward_decimals,
                            k as int + 1,
                        );
                        lemma_stake_reward_nonneg(
                            staking.liquid_stake.amount_with_multiplier,
                            rd.rate,
                            stake_decimals,
                            reward_decimals,
                        );
                    }
                    return Err(e);
                },
            };
        }
        k = k + 1;
    }
    proof {
        assert(staking.locked_stakes@.take(stakes_len as int) =~= staking.locked_stakes@);
        lemma_stake_reward_nonneg(
            staking.liquid_stake.amount_with_multiplier,
            rd.rate,
            stake_decimals,
            reward_decimals,
        );
        lemma_locked_sums_nonneg(staking.locked_stakes@, rd, stake_decimals, reward_decimals);
    }
    if staking.liquid_stake.qualifies_for_rewards_from(round) {
        let liquid_reward = match checked_decimal_mul(
            staking.liquid_stake.amount_with_multiplier,
            -(stake_decimals as i32),
            rd.rate,
            -(RATE_DECIMALS as i32),
            -(reward_decimals as i32),
        ) {
            Ok(v) => v,
            Err(e) => {
                return Err(e);
            },
        };
        rewards = match checked_add(rewards, liquid_reward) {
            Ok(v) => v,
            Err(e) => {
                return Err(e);
            },
        };
        settled = match checked_add(settled, staking.liquid_stake.amount_with_multiplier) {
            Ok(v) => v,
            Err(e) => {
                return Err(e);
            },
        };
    }
    let new_claim = match checked_add(rd.total_claim, settled) {
        Ok(v) => v,
        Err(e) => {
            return Err(e);
        },
    };
    if new_claim > rd.total_stake {
        return Err(PerpetualsError::ArithmeticOverflow);
    }
    Ok((rewards, settled))
}

// The whole scan: every resolved round, oldest first, against the whole
// account.

/// Reward owed to the account by all resolved rounds.
pub open spec fn rounds_rewards(
    rounds: Seq<StakingRound>,
    staking: Staking,
    stake_decimals: u8,
    reward_decimals: u8,
) -> int
    decreases rounds.len(),
{
    if rounds.len() == 0 {
        0
    } else {
        rounds_rewards(rounds.drop_last(), staking, stake_decimals, reward_decimals)
            + round_rewards(staking, rounds.last(), stake_decimals, reward_decimals)
    }
}

/// Stake weight the account settles across all resolved rounds.
pub open spec fn rounds_settled(rounds: Seq<StakingRound>, staking: Staking) -> int
    decreases rounds.len(),
{
    if rounds.len() == 0 {
        0
    } else {
        rounds_settled(rounds.drop_last(), staking) + round_settled(staking, rounds.last())
    }
}

/// The whole scan stays within `u64` range and within each round's
/// registered stake.
pub open spec fn scan_ok(
    rounds: Seq<StakingRound>,
    staking: Staking,
    stake_decimals: u8,
    reward_decimals: u8,
) -> bool
    decreases rounds.len(),
{
    rounds.len() == 0 || {
        &&& scan_ok(rounds.drop_last(), staking, stake_decimals, reward_decimals)
        &&& round_fits(staking, rounds.last(), stake_decimals, reward_decimals)
        &&& round_rewards(staking, rounds.last(), stake_decimals, reward_decimals) <= u64::MAX
        &&& rounds.last().total_claim + round_settled(staking, rounds.last())
            <= rounds.last().total_stake
    }
}

/// The resolved list after a claim: each round's claimed weight grows by what
/// the account settles against it, and rounds whose claimed weight then
/// equals their registered stake are pruned.
pub open spec fn claim_rounds_result(rounds: Seq<StakingRound>, staking: Staking) -> Seq<
    StakingRound,
>
    decreases rounds.len(),
{
    if rounds.len() == 0 {
        Seq::empty()
    } else {
        let prefix = claim_rounds_result(rounds.drop_last(), staking);
        let rd = rounds.last();
        let new_claim = rd.total_claim + round_settled(staking, rd);
        if new_claim == rd.total_stake {
            prefix
        } else {
            prefix.push(StakingRound { total_claim: new_claim as u64, ..rd })
        }
    }
}

/// One scan step at the round level.
pub proof fn lemma_rounds_take_step(
    rounds: Seq<StakingRound>,
    staking: Staking,
    stake_decimals: u8,
    reward_decimals: u8,
    i: int,
)
    requires
        0 <= i < rounds.len(),
    ensures
        rounds_rewards(rounds.take(i + 1), staking, stake_decimals, reward_decimals)
            == rounds_rewards(rounds.take(i), staking, stake_decimals, reward_decimals)
            + round_rewards(staking, rounds[i], stake_decimals, reward_decimals),
        rounds_settled(rounds.take(i + 1), staking) == rounds_settled(rounds.take(i), staking)
            + round_settled(staking, rounds[i]),
        scan_ok(rounds.take(i + 1), staking, stake_decimals, reward_decimals) <==> (scan_ok(
            rounds.take(i),
            staking,
            stake_decimals,
            reward_decimals,
        ) && round_fits(staking, rounds[i], stake_decimals, reward_decimals) && round_rewards(
            staking,
            rounds[i],
            stake_decimals,
            reward_decimals,
        ) <= u64::MAX && rounds[i].total_claim + round_settled(staking, rounds[i])
            <= rounds[i].total_stake),
        claim_rounds_result(rounds.take(i + 1), staking) == if rounds[i].total_claim
            + round_settled(staking, rounds[i]) == rounds[i].total_stake {
            claim_rounds_result(rounds.take(i), staking)
        } else {
            claim_rounds_result(rounds.take(i), staking).push(
                StakingRound {
                    total_claim: (rounds[i].total_claim + round_settled(staking, rounds[i])) as u64,
                    ..rounds[i]
                },
            )
        },
{
    assert(rounds.take(i + 1).drop_last() =~= rounds.take(i));
    assert(rounds.take(i + 1).last() == rounds[i]);
}

/// The round-level sums are never negative.
pub proof fn lemma_rounds_sums_nonneg(
    rounds: Seq<StakingRound>,
    staking: Staking,
    stake_decimals: u8,
    reward_decimals: u8,
)
    ensures
        0 <= rounds_rewards(rounds, staking, stake_decimals, reward_decimals),
        0 <= rounds_settled(rounds, staking),
    decreases rounds.len(),
{
    if rounds.len() > 0 {
        lemma_rounds_sums_nonneg(rounds.drop_last(), staking, stake_decimals, reward_decimals);
        lemma_round_sums_nonneg(staking, rounds.last(), stake_decimals, reward_decimals);
    }
}

/// A prefix of the scan never sums to more than the whole scan.
pub proof fn lemma_rounds_prefix_le(
    rounds: Seq<StakingRound>,
    staking: Staking,
    stake_decimals: u8,
    reward_decimals: u8,
    i: int,
)
    requires
        0 <= i <= rounds.len(),
    ensures
        rounds_rewards(rounds.take(i), staking, stake_decimals, reward_decimals) <= rounds_rewards(
            rounds,
            staking,
            stake_decimals,
            reward_decimals,
        ),
        rounds_settled(rounds.take(i), staking) <= rounds_settled(rounds, staking),
    decreases rounds.len() - i,
{
    if i == rounds.len() {
        assert(rounds.take(i) =~= rounds);
    } else {
        lemma_rounds_take_step(rounds, staking, stake_decimals, reward_decimals, i);
        lemma_round_sums_nonneg(staking, rounds[i], stake_decimals, reward_decimals);
        lemma_rounds_prefix_le(rounds, staking, stake_decimals, reward_decimals, i + 1);
    }
}

/// If one round of the list fails its scan conditions, the whole scan fails.
pub proof fn lemma_scan_ok_whole(
    rounds: Seq<StakingRound>,
    staking: Staking,
    stake_decimals: u8,
    reward_decimals: u8,
    i: int,
)
    requires
        0 <= i < rounds.len(),
        !(round_fits(staking, rounds[i], stake_decimals, reward_decimals) && round_rewards(
            staking,
            rounds[i],
            stake_decimals,
            reward_decimals,
        ) <= u64::MAX && rounds[i].total_claim + round_settled(staking, rounds[i])
            <= rounds[i].total_stake),
    ensures
        !scan_ok(rounds, staking, stake_decimals, reward_decimals),
    decreases rounds.len(),
{
    if rounds.len() > 0 && i < rounds.len() - 1 {
        assert(rounds.drop_last()[i] == rounds[i]);
        lemma_scan_ok_whole(rounds.drop_last(), staking, stake_decimals, reward_decimals, i);
    }
}

/// What the pruned list looks like: no longer than before, every kept round
/// claimed strictly below its registered stake, every kept round opened
/// before the same bound as before.
pub proof fn lemma_claim_rounds_result_props(
    rounds: Seq<StakingRound>,
    staking: Staking,
    stake_decimals: u8,
    reward_decimals: u8,
    bound: i64,
)
    requires
        scan_ok(rounds, staking, stake_decimals, reward_decimals),
        forall|i: int|
            0 <= i < rounds.len() ==> (#[trigger] rounds[i]).total_claim <= rounds[i].total_stake,
        forall|i: int| 0 <= i < rounds.len() ==> (#[trigger] rounds[i]).start_time < bound,
    ensures
        claim_rounds_result(rounds, staking).len() <= rounds.len(),
        forall|j: int|
            0 <= j < claim_rounds_result(rounds, staking).len() ==> (#[trigger] claim_rounds_result(
                rounds,
                staking,
            )[j]).total_claim < claim_rounds_result(rounds, staking)[j].total_stake,
        forall|j: int|
            0 <= j < claim_rounds_result(rounds, staking).len() ==> (#[trigger] claim_rounds_result(
                rounds,
                staking,
            )[j]).start_time < bound,
    decreases rounds.len(),
{
    if rounds.len() > 0 {
        assert(forall|i: int|
            0 <= i < rounds.drop_last().len() ==> rounds.drop_last()[i] == rounds[i]);
        lemma_claim_rounds_result_props(
            rounds.drop_last(),
            staking,
            stake_decimals,
            reward_decimals,
            bound,
        );
        lemma_round_sums_nonneg(staking, rounds.last(), stake_decimals, reward_decimals);
    }
}

/// Inside a list whose eligible rewards all fit, each single one fits.
pub proof fn lemma_locked_fit_whole(
    stakes: Seq<LockedStake>,
    round: StakingRound,
    stake_decimals: u8,
    reward_decimals: u8,
    i: int,
)
    requires
        0 <= i < stakes.len(),
        stake_eligible(stakes[i].claim_time, round),
        !stake_reward_fits(stakes[i].amount_with_multiplier, round.rate, stake_decimals,
        reward_decimals),
    ensures
        !locked_rewards_fit(stakes, round, stake_decimals, reward_decimals),
    decreases stakes.len(),
{
    if stakes.len() > 0 && i < stakes.len() - 1 {
        assert(stakes.drop_last()[i] == stakes[i]);
        lemma_locked_fit_whole(stakes.drop_last(), round, stake_decimals, reward_decimals, i);
    }
}

/// A list of locked stakes whose last-claim markers all sit at or past a
/// round's opening earns and settles nothing from that round.
proof fn lemma_locked_ineligible_zero(
    stakes: Seq<LockedStake>,
    round: StakingRound,
    stake_decimals: u8,
    reward_decimals: u8,
)
    requires
        forall|i: int|
            0 <= i < stakes.len() ==> (#[trigger] stakes[i]).claim_time >= round.start_time,
    ensures
        locked_rewards(stakes, round, stake_decimals, reward_decimals) == 0,
        locked_settled(stakes, round) == 0,
        locked_rewards_fit(stakes, round, stake_decimals, reward_decimals),
    decreases stakes.len(),
{
    if stakes.len() > 0 {
        assert(forall|i: int|
            0 <= i < stakes.drop_last().len() ==> stakes.drop_last()[i] == stakes[i]);
        lemma_locked_ineligible_zero(stakes.drop_last(), round, stake_decimals, reward_decimals);
    }
}

/// No retroactive rewards: an account none of whose stakes existed before a
/// round opened earns nothing from that round and settles nothing against it.
pub proof fn lemma_no_retroactive_rewards(
    staking: Staking,
    round: StakingRound,
    stake_decimals: u8,
    reward_decimals: u8,
)
    requires
        staking.liquid_stake.claim_time >= round.start_time,
        forall|i: int|
            0 <= i < staking.locked_stakes@.len() ==> (#[trigger] staking.locked_stakes@[i]).claim_time
                >= round.start_time,
    ensures
        round_rewards(staking, round, stake_decimals, reward_decimals) == 0,
        round_settled(staking, round) == 0,
        round_fits(staking, round, stake_decimals, reward_decimals),
{
    lemma_locked_ineligible_zero(staking.locked_stakes@, round, stake_decimals, reward_decimals);
}

/// Across a list of rounds that all opened at or before `cutoff`, an account
/// whose stakes all have last-claim markers at or past `cutoff` earns and
/// settles nothing, and its scan is trivially computable.
proof fn lemma_rounds_ineligible_zero(
    rounds: Seq<StakingRound>,
    staking: Staking,
    stake_decimals: u8,
    reward_decimals: u8,
    cutoff: i64,
)
    requires
        forall|j: int| 0 <= j < rounds.len() ==> (#[trigger] rounds[j]).start_time <= cutoff,
        forall|j: int|
            0 <= j < rounds.len() ==> (#[trigger] rounds[j]).total_claim <= rounds[j].total_stake,
        staking.liquid_stake.claim_time >= cutoff,
        forall|i: int|
            0 <= i < staking.locked_stakes@.len() ==> (#[trigger] staking.locked_stakes@[i]).claim_time
                >= cutoff,
    ensures
        rounds_rewards(rounds, staking, stake_decimals, reward_decimals) == 0,
        rounds_settled(rounds, staking) == 0,
        scan_ok(rounds, staking, stake_decimals, reward_decimals),
    decreases rounds.len(),
{
    if rounds.len() > 0 {
        assert(forall|j: int|
            0 <= j < rounds.drop_last().len() ==> rounds.drop_last()[j] == rounds[j]);
        lemma_rounds_ineligible_zero(
            rounds.drop_last(),
            staking,
            stake_decimals,
            reward_decimals,
            cutoff,
        );
        lemma_no_retroactive_rewards(staking, rounds.last(), stake_decimals, reward_decimals);
    }
}

/// No double claim: right after a claim has refreshed every stake's
/// last-claim marker to just before the current round's opening, a second
/// claim against the same ledger is owed nothing — it succeeds whatever the
/// vault holds, pays zero, and settles nothing.
pub proof fn lemma_no_double_claim(cortex: Cortex, staking: Staking, vault_balance: u64)
    requires
        cortex.wf(),
        staking.liquid_stake.claim_time >= cortex.current_staking_round.start_time - 1,
        forall|i: int|
            0 <= i < staking.locked_stakes@.len() ==> (#[trigger] staking.locked_stakes@[i]).claim_time
                >= cortex.current_staking_round.start_time - 1,
    ensures
        rounds_rewards(
            cortex.resolved_staking_rounds@,
            staking,
            cortex.stake_token_decimals,
            cortex.stake_reward_token_decimals,
        ) == 0,
        rounds_settled(cortex.resolved_staking_rounds@, staking) == 0,
        claim_ok(cortex, staking, vault_balance),
{
    let cutoff: i64 = if cortex.current_staking_round.start_time == i64::MIN {
        i64::MIN
    } else {
        (cortex.current_staking_round.start_time - 1) as i64
    };
    assert(forall|j: int|
        0 <= j < cortex.resolved_staking_rounds@.len() ==> (
        #[trigger] cortex.resolved_staking_rounds@[j]).start_time <= cutoff);
    lemma_rounds_ineligible_zero(
        cortex.resolved_staking_rounds@,
        staking,
        cortex.stake_token_decimals,
        cortex.stake_reward_token_decimals,
        cutoff,
    );
}

/// Exactly when `claim_stakes` succeeds: the scan of every resolved round is
/// computable and conservative, the total reward fits a `u64` and the vault
/// can cover it, and — when anything settles — the last-claim refresh and the
/// bucket moves stay within range.
pub open spec fn claim_ok(cortex: Cortex, staking: Staking, vault_balance: u64) -> bool {
    let rounds = cortex.resolved_staking_rounds@;
    let rewards = rounds_rewards(
        rounds,
        staking,
        cortex.stake_token_decimals,
        cortex.stake_reward_token_decimals,
    );
    &&& scan_ok(rounds, staking, cortex.stake_token_decimals, cortex.stake_reward_token_decimals)
    &&& rewards <= u64::MAX
    &&& rewards <= vault_balance
    &&& (rounds_settled(rounds, staking) > 0 ==> {
        let moved = locked_amounts(staking.locked_stakes@);
        &&& i64::MIN < cortex.current_staking_round.start_time
        &&& moved <= cortex.current_staking_round.total_stake
        &&& cortex.next_staking_round.total_stake + moved <= u64::MAX
        &&& moved <= cortex.resolved_stake_token_amount
        &&& rewards <= cortex.resolved_reward_token_amount
    })
}

/// Reconciles one stake account against every resolved round and returns the
/// reward amount owed, to be transferred from the reward vault (of balance
/// `vault_balance`) to the account owner. Callable on the owner's behalf by
/// any party.
///
/// For each resolved round, every stake that existed before the round opened
/// earns `amount_with_multiplier × rate` rescaled to reward decimals, and its
/// weight is added to the round's claimed total; rounds then fully claimed
/// are pruned. When nothing settles, the call is a no-op apart from that
/// pruning and pays zero. Otherwise every stake's last-claim marker moves to
/// just before the current round's opening — keeping it eligible for the
/// current round without re-claiming any resolved one — the locked weights
/// move from the current round's bucket to the next round's, and the
/// claimable aggregates shrink by what was settled.
///
/// On failure nothing changes; `InsufficientVaultBalance` reports exactly a
/// computable reward total exceeding the vault.
#[verifier::loop_isolation(false)]
pub fn claim_stakes(cortex: &mut Cortex, staking: &mut Staking, vault_balance: u64) -> (r: Result<
    u64,
    PerpetualsError,
>)
    requires
        old(cortex).wf(),
    ensures
        final(cortex).wf(),
        r is Err ==> *final(cortex) == *old(cortex) && *final(staking) == *old(staking),
        r is Ok <==> claim_ok(*old(cortex), *old(staking), vault_balance),
        (r matches Err(e) && e == PerpetualsError::InsufficientVaultBalance) <==> {
            let rounds = old(cortex).resolved_staking_rounds@;
            let rewards = rounds_rewards(
                rounds,
                *old(staking),
                old(cortex).stake_token_decimals,
                old(cortex).stake_reward_token_decimals,
            );
            &&& scan_ok(
                rounds,
                *old(staking),
                old(cortex).stake_token_decimals,
                old(cortex).stake_reward_token_decimals,
            )
            &&& rewards <= u64::MAX
            &&& rewards > vault_balance
        },
        r is Ok ==> {
            let rounds = old(cortex).resolved_staking_rounds@;
            let rewards = rounds_rewards(
                rounds,
                *old(staking),
                old(cortex).stake_token_decimals,
                old(cortex).stake_reward_token_decimals,
            );
            let settled = rounds_settled(rounds, *old(staking));
            let moved = locked_amounts(old(staking).locked_stakes@);
            &&& r->Ok_0 == rewards
            &&& final(cortex).resolved_staking_rounds@ == claim_rounds_result(
                rounds,
                *old(staking),
            )
            &&& final(cortex).resolved_staking_rounds@.len() <= rounds.len()
            &&& forall|j: int|
                0 <= j < final(cortex).resolved_staking_rounds@.len() ==> (#[trigger] final(cortex).resolved_staking_rounds@[j]).total_claim < final(cortex).resolved_staking_rounds@[j].total_stake
            &&& final(cortex).inception_epoch == old(cortex).inception_epoch
            &&& final(cortex).stake_token_decimals == old(cortex).stake_token_decimals
            &&& final(cortex).stake_reward_token_decimals == old(cortex).stake_reward_token_decimals
            &&& (settled == 0 ==> *final(staking) == *old(staking) && final(cortex).current_staking_round == old(cortex).current_staking_round && final(cortex).next_staking_round == old(cortex).next_staking_round && final(cortex).resolved_reward_token_amount == old(cortex).resolved_reward_token_amount && final(cortex).resolved_stake_token_amount == old(cortex).resolved_stake_token_amount)
            &&& (settled > 0 ==> {
                &&& final(staking).liquid_stake == (LiquidStake {
                    claim_time: (old(cortex).current_staking_round.start_time - 1) as i64,
                    ..old(staking).liquid_stake
                })
                &&& final(staking).locked_stakes@ == old(staking).locked_stakes@.map_values(
                    |st: LockedStake|
                        (LockedStake {
                            claim_time: (old(cortex).current_staking_round.start_time - 1) as i64,
                            ..st
                        }),
                )
                &&& final(cortex).current_staking_round == (StakingRound {
                    total_stake: (old(cortex).current_staking_round.total_stake - moved) as u64,
                    ..old(cortex).current_staking_round
                })
                &&& final(cortex).next_staking_round == (StakingRound {
                    total_stake: (old(cortex).next_staking_round.total_stake + moved) as u64,
                    ..old(cortex).next_staking_round
                })
                &&& final(cortex).resolved_stake_token_amount == old(cortex).resolved_stake_token_amount - moved
                &&& final(cortex).resolved_reward_token_amount == old(cortex).resolved_reward_token_amount - rewards
            })
        },
{
    let stake_decimals = cortex.stake_token_decimals;
    let reward_decimals = cortex.stake_reward_token_decimals;
    let ghost old_rounds = cortex.resolved_staking_rounds@;
    let ghost old_staking = *staking;
    let rounds_len = cortex.resolved_staking_rounds.len();
    let mut retained: Vec<StakingRound> = Vec::new();
    let mut rewards_total: u64 = 0;
    let mut any_settled: bool = false;
    let mut i: usize = 0;
    while i < rounds_len
        invariant
            old(cortex).wf(),
            0 <= i <= rounds_len,
            *cortex == *old(cortex),
            *staking == old_staking,
            old_staking == *old(staking),
            old_rounds == cortex.resolved_staking_rounds@,
            rounds_len == old_rounds.len(),
            retained@ == claim_rounds_result(old_rounds.take(i as int), old_staking),
            rewards_total == rounds_rewards(
                old_rounds.take(i as int),
                old_staking,
                stake_decimals,
                reward_decimals,
            ),
            any_settled <==> rounds_settled(old_rounds.take(i as int), old_staking) > 0,
            scan_ok(old_rounds.take(i as int), old_staking, stake_decimals, reward_decimals),
            stake_decimals == cortex.stake_token_decimals,
            reward_decimals == cortex.stake_reward_token_decimals,
        decreases rounds_len - i,
    {
        let round = cortex.resolved_staking_rounds[i];
        proof {
            lemma_rounds_take_step(old_rounds, old_staking, stake_decimals, reward_decimals,
            i as int);
            lemma_rounds_sums_nonneg(
                old_rounds.take(i as int),
                old_staking,
                stake_decimals,
                reward_decimals,
            );
            lemma_round_sums_nonneg(old_staking, round, stake_decimals, reward_decimals);
        }
        let (round_reward, round_settle) = match process_round_for_account(
            &round,
            staking,
            stake_decimals,
            reward_decimals,
        ) {
            Ok(v) => v,
            Err(e) => {
                proof {
                    lemma_scan_ok_whole(
                        old_rounds,
                        old_staking,
                        stake_decimals,
                        reward_decimals,
                        i as int,
                    );
                }
                return Err(e);
            },
        };
        rewards_total = match checked_add(rewards_total, round_reward) {
            Ok(v) => v,
            Err(e) => {
                proof {
                    lemma_rounds_prefix_le(
                        old_rounds,
                        old_staking,
                        stake_decimals,
                        reward_decimals,
                        i as int + 1,
                    );
                }
                return Err(e);
            },
        };
        let new_claim = round.total_claim + round_settle;
        if new_claim != round.total_stake {
            retained.push(StakingRound { total_claim: new_claim, ..round });
        }
        if round_settle > 0 {
            any_settled = true;
        }
        i = i + 1;
    }
    proof {
        assert(old_rounds.take(rounds_len as int) =~= old_rounds);
        lemma_rounds_sums_nonneg(old_rounds, old_staking, stake_decimals, reward_decimals);
    }
    if rewards_total > vault_balance {
        return Err(PerpetualsError::InsufficientVaultBalance);
    }
    if !any_settled {
        // Nothing settled, so no reward is owed and no marker moves; only the
        // pruning of already-settled rounds is committed.
        cortex.resolved_staking_rounds = retained;
        proof {
            lemma_claim_rounds_result_props(
                old_rounds,
                old_staking,
                stake_decimals,
                reward_decimals,
                old(cortex).current_staking_round.start_time,
            );
        }
        return Ok(rewards_total);
    }
    // Something settled: refresh every stake's last-claim marker to just
    // before the current round's opening, move the locked weights into the
    // next round's bucket, and shrink the claimable aggregates. All checked
    // arithmetic happens before the first mutation.
    let new_claim_time = match checked_sub_i64(
        cortex.current_staking_round.start_time,
        1,
    ) {
        Ok(v) => v,
        Err(e) => {
            return Err(e);
        },
    };
    let stakes_len = staking.locked_stakes.len();
    let mut moved: u64 = 0;
    let mut k: usize = 0;
    while k < stakes_len
        invariant
            0 <= k <= stakes_len,
            *staking == old_staking,
            stakes_len == staking.locked_stakes@.len(),
            moved == locked_amounts(staking.locked_stakes@.take(k as int)),
            locked_amounts(staking.locked_stakes@.take(k as int)) <= u64::MAX,
        decreases stakes_len - k,
    {
        proof {
            lemma_locked_take_step(
                staking.locked_stakes@,
                cortex.current_staking_round,
                stake_decimals,
                reward_decimals,
                k as int,
            );
        }
        moved = match checked_add(moved, staking.locked_stakes[k].amount_with_multiplier) {
            Ok(v) => v,
            Err(e) => {
                proof {
                    lemma_locked_prefix_le(
                        staking.locked_stakes@,
                        cortex.current_staking_round,
                        stake_decimals,
                        reward_decimals,
                        k as int + 1,
                    );
                }
                return Err(e);
            },
        };
        k = k + 1;
    }
    proof {
        assert(staking.locked_stakes@.take(stakes_len as int) =~= staking.locked_stakes@);
    }
    let new_current_stake = match checked_sub(
        cortex.current_staking_round.total_stake,
        moved,
    ) {
        Ok(v) => v,
        Err(e) => {
            return Err(e);
        },
    };
    let new_next_stake = match checked_add(cortex.next_staking_round.total_stake, moved) {
        Ok(v) => v,
        Err(e) => {
            return Err(e);
        },
    };
    let new_stake_aggregate = match checked_sub(
        cortex.resolved_stake_token_amount,
        moved,
    ) {
        Ok(v) => v,
        Err(e) => {
            return Err(e);
        },
    };
    let new_reward_aggregate = match checked_sub(
        cortex.resolved_reward_token_amount,
        rewards_total,
    ) {
        Ok(v) => v,
        Err(e) => {
            return Err(e);
        },
    };
    let mut refreshed: Vec<LockedStake> = Vec::new();
    let mut j: usize = 0;
    while j < stakes_len
        invariant
            0 <= j <= stakes_len,
            *staking == old_staking,
            stakes_len == staking.locked_stakes@.len(),
            refreshed@ =~= staking.locked_stakes@.take(j as int).map_values(
                |st: LockedStake| (LockedStake { claim_time: new_claim_time, ..st }),
            ),
        decreases stakes_len - j,
    {
        let st = staking.locked_stakes[j];
        refreshed.push(LockedStake { claim_time: new_claim_time, ..st });
        proof {
            assert(staking.locked_stakes@.take(j as int + 1).map_values(
                |st: LockedStake| (LockedStake { claim_time: new_claim_time, ..st }),
            ) =~= staking.locked_stakes@.take(j as int).map_values(
                |st: LockedStake| (LockedStake { claim_time: new_claim_time, ..st }),
            ).push(LockedStake { claim_time: new_claim_time, ..st }));
        }
        j = j + 1;
    }
    proof {
        assert(staking.locked_stakes@.take(stakes_len as int) =~= staking.locked_stakes@);
        lemma_claim_rounds_result_props(
            old_rounds,
            old_staking,
            stake_decimals,
            reward_decimals,
            old(cortex).current_staking_round.start_time,
        );
    }
    cortex.resolved_staking_rounds = retained;
    cortex.current_staking_round.total_stake = new_current_stake;
    cortex.next_staking_round.total_stake = new_next_stake;
    cortex.resolved_stake_token_amount = new_stake_aggregate;
    cortex.resolved_reward_token_amount = new_reward_aggregate;
    staking.liquid_stake.claim_time = new_claim_time;
    staking.locked_stakes = refreshed;
    Ok(rewards_total)
}

// Reward conservation at the vault level: the rate fixed at resolution is
// `floor(reward · 10^m / total_stake)` with `m = RATE_DECIMALS +
// stake_decimals - reward_decimals`, and each stake is paid
// `floor(weight · rate / 10^m)`. Summing the rounded-down payouts of weights
// that total at most the registered stake can never exceed the reward
// allocated to the round; what the rounding loses is the dust that stays in
// the vault.

/// Rounding down two shares loses at least as much as rounding down their
/// sum.
proof fn lemma_div_sum_le(x: int, y: int, d: int)
    requires
        x >= 0,
        y >= 0,
        d > 0,
    ensures
        x / d + y / d <= (x + y) / d,
{
    lemma_fundamental_div_mod(x, d);
    lemma_fundamental_div_mod(y, d);
    lemma_mod_bound(x, d);
    lemma_mod_bound(y, d);
    assert(d * (x / d) + d * (y / d) == d * (x / d + y / d)) by (nonlinear_arith);
    lemma_div_is_ordered(d * (x / d + y / d), x + y, d);
    lemma_div_multiples_vanish(x / d + y / d, d);
}

/// The reward paid for one stake weight is its share of the rate, rounded
/// toward zero, whenever the rescaling exponent `m` is nonnegative.
proof fn lemma_stake_reward_as_div(
    amount: u64,
    rate: u64,
    stake_decimals: u8,
    reward_decimals: u8,
)
    requires
        reward_decimals <= stake_decimals + RATE_DECIMALS,
    ensures
        stake_reward_value(amount, rate, stake_decimals, reward_decimals) == (amount * rate)
            / pow10((RATE_DECIMALS + stake_decimals - reward_decimals) as nat),
{
    let m = (RATE_DECIMALS + stake_decimals - reward_decimals) as nat;
    if m == 0 {
        lemma_pow10_positive(m);
        assert(amount * rate >= 0) by (nonlinear_arith)
            requires
                amount >= 0,
                rate >= 0,
        ;
        assert(amount * rate * pow10(m) == amount * rate) by (nonlinear_arith)
            requires
                pow10(m) == 1,
        ;
        lemma_div_multiples_vanish_reversed(amount * rate, 1);
    }
}

/// `(x * d) / d == x`: dividing out a factor written on the right.
proof fn lemma_div_multiples_vanish_reversed(x: int, d: int)
    requires
        0 < d,
        0 <= x,
    ensures
        (x * d) / d == x,
{
    assert(x * d == d * x);
    lemma_div_multiples_vanish(x, d);
}

/// The locked stakes' total reward from a round never exceeds their settled
/// weight's share of the rate.
proof fn lemma_locked_rewards_bounded(
    stakes: Seq<LockedStake>,
    round: StakingRound,
    stake_decimals: u8,
    reward_decimals: u8,
)
    requires
        reward_decimals <= stake_decimals + RATE_DECIMALS,
    ensures
        locked_rewards(stakes, round, stake_decimals, reward_decimals) <= (locked_settled(
            stakes,
            round,
        ) * round.rate) / pow10((RATE_DECIMALS + stake_decimals - reward_decimals) as nat),
    decreases stakes.len(),
{
    let m = (RATE_DECIMALS + stake_decimals - reward_decimals) as nat;
    lemma_pow10_positive(m);
    if stakes.len() == 0 {
        assert((0int * round.rate) == 0) by (nonlinear_arith);
    } else {
        let rest = stakes.drop_last();
        lemma_locked_rewards_bounded(rest, round, stake_decimals, reward_decimals);
        lemma_locked_sums_nonneg(rest, round, stake_decimals, reward_decimals);
        let settled_rest = locked_settled(rest, round);
        if stake_eligible(stakes.last().claim_time, round) {
            let weight = stakes.last().amount_with_multiplier;
            lemma_stake_reward_as_div(weight, round.rate, stake_decimals, reward_decimals);
            assert(settled_rest * round.rate >= 0) by (nonlinear_arith)
                requires
                    settled_rest >= 0,
                    round.rate >= 0,
            ;
            lemma_div_sum_le(settled_rest * round.rate, weight * round.rate, pow10(m));
            assert(settled_rest * round.rate + weight * round.rate == (settled_rest + weight)
                * round.rate) by (nonlinear_arith);
        }
    }
}

/// The whole account's reward from a round never exceeds its settled
/// weight's share of the rate.
proof fn lemma_round_rewards_bounded(
    staking: Staking,
    round: StakingRound,
    stake_decimals: u8,
    reward_decimals: u8,
)
    requires
        reward_decimals <= stake_decimals + RATE_DECIMALS,
    ensures
        round_rewards(staking, round, stake_decimals, reward_decimals) <= (round_settled(
            staking,
            round,
        ) * round.rate) / pow10((RATE_DECIMALS + stake_decimals - reward_decimals) as nat),
{
    let m = (RATE_DECIMALS + stake_decimals - reward_decimals) as nat;
    lemma_pow10_positive(m);
    lemma_locked_rewards_bounded(staking.locked_stakes@, round, stake_decimals, reward_decimals);
    lemma_locked_sums_nonneg(staking.locked_stakes@, round, stake_decimals, reward_decimals);
    let settled_locked = locked_settled(staking.locked_stakes@, round);
    if stake_eligible(staking.liquid_stake.claim_time, round) {
        let weight = staking.liquid_stake.amount_with_multiplier;
        lemma_stake_reward_as_div(weight, round.rate, stake_decimals, reward_decimals);
        assert(settled_locked * round.rate >= 0) by (nonlinear_arith)
            requires
                settled_locked >= 0,
                round.rate >= 0,
        ;
        lemma_div_sum_le(settled_locked * round.rate, weight * round.rate, pow10(m));
        assert(settled_locked * round.rate + weight * round.rate == (settled_locked + weight)
            * round.rate) by (nonlinear_arith);
    }
}

/// Reward conservation: for a round whose rate was fixed by resolution from a
/// reward allocation, an account settling no more weight than the round has
/// left to claim is paid at most that allocation. Rounding dust only ever
/// stays in the vault; it is never paid out.
pub proof fn lemma_round_reward_conservation(
    staking: Staking,
    round: StakingRound,
    reward_allocation: u64,
    stake_decimals: u8,
    reward_decimals: u8,
)
    requires
        reward_decimals <= stake_decimals + RATE_DECIMALS,
        round.total_stake > 0,
        round.rate == resolved_rate_value(
            reward_allocation,
            round.total_stake,
            stake_decimals,
            reward_decimals,
        ),
        round_settled(staking, round) <= round.total_stake,
    ensures
        round_rewards(staking, round, stake_decimals, reward_decimals) <= reward_allocation,
{
    let m = (RATE_DECIMALS + stake_decimals - reward_decimals) as nat;
    lemma_pow10_positive(m);
    lemma_round_rewards_bounded(staking, round, stake_decimals, reward_decimals);
    lemma_round_sums_nonneg(staking, round, stake_decimals, reward_decimals);
    let settled = round_settled(staking, round);
    let scaled = reward_allocation * pow10(m);
    // The rate the resolution fixed: reward · 10^m over the registered stake.
    assert(round.rate == scaled / (round.total_stake as int));
    assert(reward_allocation * pow10(m) >= 0) by (nonlinear_arith)
        requires
            reward_allocation >= 0,
            pow10(m) >= 1,
    ;
    // The registered stake at that rate cannot exceed the scaled allocation.
    lemma_fundamental_div_mod(scaled, round.total_stake as int);
    lemma_mod_bound(scaled, round.total_stake as int);
    // The settled weight at that rate is no more.
    lemma_mul_inequality(settled, round.total_stake as int, round.rate as int);
    assert((round.total_stake as int) * (round.rate as int) == (round.rate as int) * (
    round.total_stake as int)) by (nonlinear_arith);
    lemma_div_is_ordered(settled * round.rate, scaled, pow10(m));
    lemma_div_multiples_vanish_reversed(reward_allocation as int, pow10(m));
}

/// Splits a paid reward between the stake owner and the caller that
/// triggered the claim on the owner's behalf. The caller's share is a
/// separately configured basis-point ratio; the protocol currently activates
/// no split, and a caller who is the owner never takes a share. Whatever the
/// configuration, the two parts always add up to the full reward.
pub fn split_claim_reward(total: u64, caller_is_owner: bool, caller_share_bps: u64) -> (r: (
    u64,
    u64,
))
    requires
        caller_share_bps <= BPS_POWER,
    ensures
        r.0 + r.1 == total,
        r.1 == if caller_is_owner {
            0int
        } else {
            (total * caller_share_bps) / (BPS_POWER as int)
        },
{
    if caller_is_owner {
        return (total, 0);
    }
    proof {
        lemma_mul_upper_bound(
            total as int,
            u64::MAX as int,
            caller_share_bps as int,
            BPS_POWER as int,
        );
        lemma_mul_inequality(caller_share_bps as int, BPS_POWER as int, total as int);
        lemma_div_is_ordered(
            total * caller_share_bps,
            total * (BPS_POWER as int),
            BPS_POWER as int,
        );
        lemma_div_multiples_vanish(total as int, BPS_POWER as int);
        lemma_div_pos_is_pos(total * caller_share_bps, BPS_POWER as int);
    }
    let caller_amount = (((total as u128) * (caller_share_bps as u128)) / BPS_POWER)
        as u64;
    (total - caller_amount, caller_amount)
}

/// Boundedness: a well-formed ledger never holds more resolved rounds than
/// its bound, and every ledger operation both demands and re-establishes
/// well-formedness.
pub proof fn lemma_resolved_rounds_bounded(cortex: Cortex)
    requires
        cortex.wf(),
    ensures
        cortex.resolved_staking_rounds@.len() <= crate::cortex::MAX_RESOLVED_ROUNDS as int,
{
}

/// Conservation: in a well-formed ledger no resolved round has been claimed
/// past its registered stake.
pub proof fn lemma_round_conservation(cortex: Cortex, i: int)
    requires
        cortex.wf(),
        0 <= i < cortex.resolved_staking_rounds@.len(),
    ensures
        cortex.resolved_staking_rounds@[i].total_claim
            <= cortex.resolved_staking_rounds@[i].total_stake,
{
}

} // verus!
