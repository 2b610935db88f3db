use vstd::prelude::*;

use vstd::arithmetic::div_mod::{
    lemma_div_is_ordered, lemma_div_is_ordered_by_denominator, lemma_div_multiples_vanish,
    lemma_div_nonincreasing, lemma_div_pos_is_pos,
};
use vstd::arithmetic::mul::{lemma_mul_inequality, lemma_mul_upper_bound};

use crate::errors::PerpetualsError;
use crate::math::{
    checked_add_i32, checked_add_i64, checked_as_u64, checked_div_u128, checked_mul_i32,
    checked_mul_u128, checked_sub, BPS_POWER, RATE_POWER,
};

verus! {

pub const DAYS_PER_YEAR: i64 = 365;

pub const HOURS_PER_DAY: i64 = 24;

pub const SECONDS_PER_HOURS: i64 = 3600;

/// A staking round can be resolved after at least six hours.
pub const ROUND_MIN_DURATION_HOURS: i64 = 6;

pub const ROUND_MIN_DURATION_SECONDS: i64 = 21_600;

/// A stake account participates in rounds for at most one year, so at most
/// `(365 × 24 × 3600) / 21600 = 1460` resolved rounds can be pending at once.
/// Rounds are pruned as soon as their rewards are fully claimed, and round
/// resolution refuses to grow the list past this bound.
pub const MAX_RESOLVED_ROUNDS: usize = 1460;

/// Stored size of one resolved round: one signed timestamp and three `u64`
/// amounts.
pub const STAKING_ROUND_LEN: usize = 32;

/// Stored size of the fixed-length head of the ledger record: an account tag
/// plus every field before the trailing list of resolved rounds.
pub const CORTEX_LEN: usize = 248;

/// Emission rate at protocol inception: 100%, at `RATE_DECIMALS` precision.
pub const INCEPTION_EMISSION_RATE: u64 = 1_000_000_000;

/// Portion of fees paid that becomes rewards: 0.10%.
pub const FEE_TO_REWARD_RATIO_BPS: u8 = 10;

/// Number of host-ledger epochs after which the emission divider steps up.
pub const EPOCH_DECAY_PERIOD: u8 = 10;

pub const LM_DECIMALS: u8 = 6;

pub const GOVERNANCE_DECIMALS: u8 = 6;

/// One fixed time window over which staking rewards accrue at a single
/// settled rate.
///
/// `rate` is the amount of reward token per staked token for the round, fixed
/// at resolution, at `RATE_DECIMALS` precision. `total_stake` is the staked
/// amount registered for the round; `total_claim` is the staked amount whose
/// rewards have already been paid out. The round is fully settled once
/// `total_claim == total_stake`.
#[derive(Clone, Copy, Debug, PartialEq, Eq, Structural)]
pub struct StakingRound {
    pub start_time: i64,
    pub rate: u64,
    pub total_stake: u64,
    pub total_claim: u64,
}

impl StakingRound {
    /// A fresh round opening at `start_time`: no rate, no stake, no claims.
    pub open spec fn new_spec(start_time: i64) -> StakingRound {
        StakingRound { start_time, rate: 0u64, total_stake: 0u64, total_claim: 0u64 }
    }

    pub fn new(start_time: i64) -> (r: Self)
        ensures
            r == StakingRound::new_spec(start_time),
    {
        Self { start_time, rate: 0, total_stake: 0, total_claim: 0 }
    }
}

/// The ledger singleton: the currently accruing round, the round collecting
/// newly added stake, and the bounded list of resolved-but-not-fully-claimed
/// rounds, together with the running aggregates used for storage sizing and
/// sanity bookkeeping.
#[derive(Clone, Debug)]
pub struct Cortex {
    pub inception_epoch: u64,
    pub stake_token_decimals: u8,
    pub stake_reward_token_decimals: u8,
    /// Reward tokens allocated to resolved rounds and still claimable.
    pub resolved_reward_token_amount: u64,
    /// Staked tokens locked in resolved rounds and still claimable against.
    pub resolved_stake_token_amount: u64,
    pub current_staking_round: StakingRound,
    pub next_staking_round: StakingRound,
    /// Must stay the last field: storage is resized around this trailing
    /// list, so growing or shrinking it never moves the fields above.
    pub resolved_staking_rounds: Vec<StakingRound>,
}

impl Cortex {
    /// The structural invariant every ledger operation preserves:
    /// - the resolved list stays within its bound;
    /// - no resolved round has been claimed past its registered stake;
    /// - every resolved round opened strictly before the current one;
    /// - the currently accruing round has no claims recorded against it.
    pub open spec fn wf(self) -> bool {
        &&& self.resolved_staking_rounds@.len() <= MAX_RESOLVED_ROUNDS as int
        &&& forall|i: int|
            0 <= i < self.resolved_staking_rounds@.len()
                ==> (#[trigger] self.resolved_staking_rounds@[i]).total_claim
                <= self.resolved_staking_rounds@[i].total_stake
        &&& forall|i: int|
            0 <= i < self.resolved_staking_rounds@.len()
                ==> (#[trigger] self.resolved_staking_rounds@[i]).start_time
                < self.current_staking_round.start_time
        &&& self.current_staking_round.total_claim == 0
    }

    /// A ledger at protocol inception: both live rounds open at the genesis
    /// time, nothing resolved, nothing claimable.
    pub fn new(
        genesis_time: i64,
        inception_epoch: u64,
        stake_token_decimals: u8,
        stake_reward_token_decimals: u8,
    ) -> (r: Cortex)
        ensures
            r.wf(),
            r.inception_epoch == inception_epoch,
            r.stake_token_decimals == stake_token_decimals,
            r.stake_reward_token_decimals == stake_reward_token_decimals,
            r.resolved_reward_token_amount == 0,
            r.resolved_stake_token_amount == 0,
            r.current_staking_round == StakingRound::new_spec(genesis_time),
            r.next_staking_round == StakingRound::new_spec(genesis_time),
            r.resolved_staking_rounds@ =~= Seq::<StakingRound>::empty(),
    {
        Cortex {
            inception_epoch,
            stake_token_decimals,
            stake_reward_token_decimals,
            resolved_reward_token_amount: 0,
            resolved_stake_token_amount: 0,
            current_staking_round: StakingRound::new(genesis_time),
            next_staking_round: StakingRound::new(genesis_time),
            resolved_staking_rounds: Vec::new(),
        }
    }

    /// Current stored size of the ledger record.
    pub open spec fn spec_size(self) -> int {
        CORTEX_LEN + self.resolved_staking_rounds@.len() * STAKING_ROUND_LEN
    }

    /// Returns the current stored size of the ledger record.
    pub fn size(&self) -> (s: usize)
        requires
            self.wf(),
        ensures
            s == self.spec_size(),
    {
        CORTEX_LEN + self.resolved_staking_rounds.len() * STAKING_ROUND_LEN
    }

    /// Returns the stored size of the ledger after adding or removing
    /// `staking_rounds_delta` resolved rounds, or fails when the arithmetic
    /// leaves the range a stored size can take.
    pub fn new_size(&self, staking_rounds_delta: i32) -> (r: Result<usize, PerpetualsError>)
        requires
            self.wf(),
        ensures
            r is Ok <==> {
                &&& staking_rounds_delta * STAKING_ROUND_LEN <= i32::MAX
                &&& i32::MIN <= staking_rounds_delta * STAKING_ROUND_LEN
                &&& 0 <= self.spec_size() + staking_rounds_delta * STAKING_ROUND_LEN <= i32::MAX
            },
            r is Ok ==> r->Ok_0 == self.spec_size() + staking_rounds_delta * STAKING_ROUND_LEN,
            r is Err ==> r->Err_0 == PerpetualsError::ArithmeticOverflow,
    {
        let size = self.size();
        let size_i32: i32 = size as i32;
        let delta_bytes = match checked_mul_i32(staking_rounds_delta, STAKING_ROUND_LEN as i32) {
            Ok(v) => v,
            Err(e) => {
                return Err(e);
            },
        };
        let new_size = match checked_add_i32(size_i32, delta_bytes) {
            Ok(v) => v,
            Err(e) => {
                return Err(e);
            },
        };
        if new_size < 0 {
            return Err(PerpetualsError::ArithmeticOverflow);
        }
        Ok(new_size as usize)
    }

    /// Whether the current round may be resolved at `current_time`: at least
    /// the minimum round duration must have passed since it opened. Fails
    /// only when that deadline is not representable.
    pub fn current_staking_round_is_resolvable(&self, current_time: i64) -> (r: Result<
        bool,
        PerpetualsError,
    >)
        ensures
            r is Ok <==> self.current_staking_round.start_time + ROUND_MIN_DURATION_SECONDS
                <= i64::MAX,
            r is Ok ==> (r->Ok_0 <==> current_time >= self.current_staking_round.start_time
                + ROUND_MIN_DURATION_SECONDS),
            r is Err ==> r->Err_0 == PerpetualsError::ArithmeticOverflow,
    {
        let deadline = match checked_add_i64(
            self.current_staking_round.start_time,
            ROUND_MIN_DURATION_SECONDS,
        ) {
            Ok(v) => v,
            Err(e) => {
                return Err(e);
            },
        };
        Ok(current_time >= deadline)
    }
}

// The emission schedule: a raw protocol-fee amount becomes a reward-token
// amount, decayed by elapsed epochs since protocol inception. Full rate holds
// for the first `EPOCH_DECAY_PERIOD` epochs; afterwards the rate is divided
// by successive integers every `EPOCH_DECAY_PERIOD` epochs.

/// Emission rate for `current_epoch`, at `RATE_DECIMALS` precision.
pub open spec fn emission_rate_value(inception_epoch: u64, current_epoch: u64) -> int
    recommends
        current_epoch >= inception_epoch,
{
    let elapsed: int = if current_epoch - inception_epoch >= 1 {
        current_epoch - inception_epoch
    } else {
        1
    };
    let divider: int = if elapsed / (EPOCH_DECAY_PERIOD as int) >= 1 {
        elapsed / (EPOCH_DECAY_PERIOD as int)
    } else {
        1
    };
    (INCEPTION_EMISSION_RATE as int) / divider
}

/// Fee-to-reward conversion before epoch decay: 0.10% of the fee amount,
/// rounded toward zero.
pub open spec fn lm_reward_base(fee_amount: u64) -> int {
    (fee_amount * FEE_TO_REWARD_RATIO_BPS) / (BPS_POWER as int)
}

/// Reward-token amount minted for a fee of `fee_amount` at `current_epoch`.
pub open spec fn lm_reward_value(fee_amount: u64, inception_epoch: u64, current_epoch: u64) -> int
    recommends
        current_epoch >= inception_epoch,
{
    (lm_reward_base(fee_amount) * emission_rate_value(inception_epoch, current_epoch)) / (
    RATE_POWER as int)
}

impl Cortex {
    /// Emission rate after epoch decay; fails exactly when `current_epoch`
    /// precedes `inception_epoch`.
    pub fn get_emission_rate(inception_epoch: u64, current_epoch: u64) -> (r: Result<
        u64,
        PerpetualsError,
    >)
        ensures
            r is Ok <==> current_epoch >= inception_epoch,
            r is Ok ==> r->Ok_0 == emission_rate_value(inception_epoch, current_epoch),
            r is Ok ==> r->Ok_0 <= INCEPTION_EMISSION_RATE,
            r is Err ==> r->Err_0 == PerpetualsError::ArithmeticUnderflow,
    {
        let sub = match checked_sub(current_epoch, inception_epoch) {
            Ok(v) => v,
            Err(e) => {
                return Err(e);
            },
        };
        let elapsed: u64 = if sub < 1 {
            1
        } else {
            sub
        };
        let divider_raw: u64 = elapsed / (EPOCH_DECAY_PERIOD as u64);
        let divider: u64 = if divider_raw < 1 {
            1
        } else {
            divider_raw
        };
        proof {
            lemma_div_nonincreasing(INCEPTION_EMISSION_RATE as int, divider as int);
        }
        Ok(INCEPTION_EMISSION_RATE / divider)
    }

    /// Reward-token amount for a fee paid at `current_epoch`: 0.10% of the
    /// fee, scaled down by the epoch-decayed emission rate. Fails exactly
    /// when `current_epoch` precedes the protocol's inception epoch.
    pub fn get_lm_rewards_amount_for_epoch(&self, fee_amount: u64, current_epoch: u64) -> (r:
        Result<u64, PerpetualsError>)
        ensures
            r is Ok <==> current_epoch >= self.inception_epoch,
            r is Ok ==> r->Ok_0 == lm_reward_value(fee_amount, self.inception_epoch, current_epoch),
            r is Ok ==> r->Ok_0 <= lm_reward_base(fee_amount),
            r is Err ==> r->Err_0 == PerpetualsError::ArithmeticUnderflow,
    {
        let fee_bps = match checked_mul_u128(fee_amount as u128, FEE_TO_REWARD_RATIO_BPS as u128) {
            Ok(v) => v,
            Err(e) => {
                proof {
                    lemma_mul_inequality(
                        fee_amount as int,
                        u64::MAX as int,
                        FEE_TO_REWARD_RATIO_BPS as int,
                    );
                }
                return Err(e);
            },
        };
        let base_wide = match checked_div_u128(fee_bps, BPS_POWER) {
            Ok(v) => v,
            Err(e) => {
                return Err(e);
            },
        };
        proof {
            lemma_base_fits(fee_amount);
        }
        let base_reward_amount = match checked_as_u64(base_wide) {
            Ok(v) => v,
            Err(e) => {
                return Err(e);
            },
        };
        let emission_rate = match Self::get_emission_rate(self.inception_epoch, current_epoch) {
            Ok(v) => v,
            Err(e) => {
                return Err(e);
            },
        };
        let scaled = match checked_mul_u128(base_reward_amount as u128, emission_rate as u128) {
            Ok(v) => v,
            Err(e) => {
                proof {
                    lemma_mul_upper_bound(
                        base_reward_amount as int,
                        u64::MAX as int,
                        emission_rate as int,
                        INCEPTION_EMISSION_RATE as int,
                    );
                }
                return Err(e);
            },
        };
        let adjusted_wide = match checked_div_u128(scaled, RATE_POWER) {
            Ok(v) => v,
            Err(e) => {
                return Err(e);
            },
        };
        proof {
            lemma_scaled_reward_fits(base_reward_amount, emission_rate);
        }
        match checked_as_u64(adjusted_wide) {
            Ok(v) => Ok(v),
            Err(e) => Err(e),
        }
    }

    /// Relies on `solana_program`'s clock sysvar: `Clock::get` reports the
    /// current epoch of the host ledger, and fails where no host ledger is
    /// available.
    #[verifier::external_body]
    pub fn get_epoch(&self) -> (r: Result<u64, PerpetualsError>)
        ensures
            r is Err ==> r->Err_0 == PerpetualsError::ClockUnavailable,
    {
        match <solana_program::clock::Clock as solana_program::sysvar::Sysvar>::get() {
            Ok(clock) => Ok(clock.epoch),
            Err(_) => Err(PerpetualsError::ClockUnavailable),
        }
    }

    /// Reward-token amount for a fee paid now, at whatever epoch the host
    /// ledger reports. Whatever that epoch is, the reward never exceeds the
    /// undecayed fee-to-reward conversion.
    pub fn get_lm_rewards_amount(&self, fee_amount: u64) -> (r: Result<u64, PerpetualsError>)
        ensures
            r is Ok ==> r->Ok_0 <= lm_reward_base(fee_amount),
            r is Err ==> r->Err_0 == PerpetualsError::ClockUnavailable || r->Err_0
                == PerpetualsError::ArithmeticUnderflow,
    {
        let current_epoch = match self.get_epoch() {
            Ok(v) => v,
            Err(e) => {
                return Err(e);
            },
        };
        self.get_lm_rewards_amount_for_epoch(fee_amount, current_epoch)
    }

    /// Reward-token amounts for the two legs of a swap fee.
    pub fn get_swap_lm_rewards_amounts(&self, fees: (u64, u64)) -> (r: Result<
        (u64, u64),
        PerpetualsError,
    >)
        ensures
            r is Ok ==> r->Ok_0.0 <= lm_reward_base(fees.0),
            r is Ok ==> r->Ok_0.1 <= lm_reward_base(fees.1),
    {
        let fee_in_reward = match self.get_lm_rewards_amount(fees.0) {
            Ok(v) => v,
            Err(e) => {
                return Err(e);
            },
        };
        let fee_out_reward = match self.get_lm_rewards_amount(fees.1) {
            Ok(v) => v,
            Err(e) => {
                return Err(e);
            },
        };
        Ok((fee_in_reward, fee_out_reward))
    }
}

/// The undecayed reward base fits a `u64`: it is at most the fee it came
/// from.
proof fn lemma_base_fits(fee_amount: u64)
    ensures
        0 <= lm_reward_base(fee_amount) <= fee_amount,
{
    lemma_div_pos_is_pos(fee_amount * FEE_TO_REWARD_RATIO_BPS, BPS_POWER as int);
    lemma_div_is_ordered_by_denominator(
        fee_amount * FEE_TO_REWARD_RATIO_BPS,
        FEE_TO_REWARD_RATIO_BPS as int,
        BPS_POWER as int,
    );
    lemma_div_multiples_vanish(fee_amount as int, FEE_TO_REWARD_RATIO_BPS as int);
    assert(fee_amount * FEE_TO_REWARD_RATIO_BPS == FEE_TO_REWARD_RATIO_BPS * fee_amount);
}

/// Scaling a reward base by an emission rate of at most 100% and rescaling
/// back down never exceeds the base.
proof fn lemma_scaled_reward_fits(base_reward_amount: u64, emission_rate: u64)
    requires
        emission_rate <= INCEPTION_EMISSION_RATE,
    ensures
        0 <= (base_reward_amount * emission_rate) / (RATE_POWER as int) <= base_reward_amount,
{
    lemma_div_pos_is_pos(base_reward_amount * emission_rate, RATE_POWER as int);
    lemma_mul_inequality(emission_rate as int, RATE_POWER as int, base_reward_amount as int);
    assert(base_reward_amount * emission_rate == emission_rate * base_reward_amount);
    assert(base_reward_amount * (RATE_POWER as int) == (RATE_POWER as int) * (
    base_reward_amount as int));
    lemma_div_is_ordered(
        base_reward_amount * emission_rate,
        base_reward_amount * (RATE_POWER as int),
        RATE_POWER as int,
    );
    lemma_div_multiples_vanish(base_reward_amount as int, RATE_POWER as int);
}

/// For a fixed fee, the reward amount is non-increasing as the current epoch
/// increases: the emission schedule only ever decays.
pub proof fn lemma_emission_rate_monotonic(inception_epoch: u64, epoch_a: u64, epoch_b: u64)
    requires
        inception_epoch <= epoch_a <= epoch_b,
    ensures
        emission_rate_value(inception_epoch, epoch_b) <= emission_rate_value(
            inception_epoch,
            epoch_a,
        ),
{
    let elapsed_a: int = if epoch_a - inception_epoch >= 1 {
        epoch_a - inception_epoch
    } else {
        1
    };
    let elapsed_b: int = if epoch_b - inception_epoch >= 1 {
        epoch_b - inception_epoch
    } else {
        1
    };
    lemma_div_is_ordered(elapsed_a, elapsed_b, EPOCH_DECAY_PERIOD as int);
    let divider_a: int = if elapsed_a / (EPOCH_DECAY_PERIOD as int) >= 1 {
        elapsed_a / (EPOCH_DECAY_PERIOD as int)
    } else {
        1
    };
    let divider_b: int = if elapsed_b / (EPOCH_DECAY_PERIOD as int) >= 1 {
        elapsed_b / (EPOCH_DECAY_PERIOD as int)
    } else {
        1
    };
    lemma_div_is_ordered_by_denominator(INCEPTION_EMISSION_RATE as int, divider_a, divider_b);
}

/// For a fixed `fee_amount`, `lm_reward_value` is non-increasing as
/// `current_epoch` increases.
pub proof fn lemma_lm_reward_amount_monotonic(
    fee_amount: u64,
    inception_epoch: u64,
    epoch_a: u64,
    epoch_b: u64,
)
    requires
        inception_epoch <= epoch_a <= epoch_b,
    ensures
        lm_reward_value(fee_amount, inception_epoch, epoch_b) <= lm_reward_value(
            fee_amount,
            inception_epoch,
            epoch_a,
        ),
{
    lemma_emission_rate_monotonic(inception_epoch, epoch_a, epoch_b);
    lemma_base_fits(fee_amount);
    let base = lm_reward_base(fee_amount);
    let rate_a = emission_rate_value(inception_epoch, epoch_a);
    let rate_b = emission_rate_value(inception_epoch, epoch_b);
    lemma_mul_inequality(rate_b, rate_a, base);
    assert(rate_b * base == base * rate_b);
    assert(rate_a * base == base * rate_a);
    lemma_div_is_ordered(base * rate_b, base * rate_a, RATE_POWER as int);
}

} // verus!
