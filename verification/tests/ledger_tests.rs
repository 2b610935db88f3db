use perpetuals::claim::{claim_stakes, split_claim_reward};
use perpetuals::cortex::{
    Cortex, StakingRound, MAX_RESOLVED_ROUNDS, ROUND_MIN_DURATION_SECONDS,
};
use perpetuals::errors::PerpetualsError;
use perpetuals::resolve::{resolve_staking_round, unresolved_reward_pool};
use perpetuals::staking::{
    add_liquid_stake, add_locked_stake, compute_amount_with_multiplier, lock_multiplier_bps,
    remove_liquid_stake, remove_locked_stake, LiquidStake, LockedStake, Staking,
    MAX_LOCKED_STAKES, SECONDS_PER_YEAR,
};

fn empty_liquid_stake(claim_time: i64) -> LiquidStake {
    LiquidStake {
        amount: 0,
        amount_with_multiplier: 0,
        stake_time: claim_time,
        claim_time,
    }
}

fn liquid_staker(amount: u64, claim_time: i64) -> Staking {
    Staking {
        liquid_stake: LiquidStake {
            amount,
            amount_with_multiplier: amount,
            stake_time: claim_time,
            claim_time,
        },
        locked_stakes: Vec::new(),
    }
}

fn locked_staker(amount_with_multiplier: u64, claim_time: i64) -> Staking {
    Staking {
        liquid_stake: empty_liquid_stake(claim_time),
        locked_stakes: vec![LockedStake {
            amount: amount_with_multiplier,
            amount_with_multiplier,
            stake_time: claim_time,
            claim_time,
            lock_duration: 0,
        }],
    }
}

/// A ledger whose single resolved round is given directly.
fn cortex_with_round(round: StakingRound, current_start: i64, current_stake: u64) -> Cortex {
    Cortex {
        inception_epoch: 0,
        stake_token_decimals: 6,
        stake_reward_token_decimals: 6,
        resolved_reward_token_amount: 1_000_000,
        resolved_stake_token_amount: 10_000_000,
        current_staking_round: StakingRound {
            start_time: current_start,
            rate: 0,
            total_stake: current_stake,
            total_claim: 0,
        },
        next_staking_round: StakingRound::new(current_start),
        resolved_staking_rounds: vec![round],
    }
}

#[test]
fn test_resolve_round_boundary() {
    // Resolution one second before the minimum duration fails and changes
    // nothing; at exactly the minimum duration it succeeds.
    let mut cortex = Cortex::new(1_000, 0, 6, 6);
    let r = resolve_staking_round(&mut cortex, 0, 1_000 + ROUND_MIN_DURATION_SECONDS - 1);
    assert_eq!(r, Err(PerpetualsError::RoundNotYetResolvable));
    assert_eq!(cortex.resolved_staking_rounds.len(), 0);
    assert_eq!(cortex.current_staking_round.start_time, 1_000);

    let r = resolve_staking_round(&mut cortex, 0, 1_000 + ROUND_MIN_DURATION_SECONDS);
    assert_eq!(r, Ok(()));
    assert_eq!(cortex.resolved_staking_rounds.len(), 1);
    assert_eq!(
        cortex.current_staking_round.start_time,
        1_000 + ROUND_MIN_DURATION_SECONDS
    );
}

#[test]
fn test_resolve_round_sets_rate_and_promotes() {
    let mut cortex = Cortex::new(0, 0, 6, 6);
    let mut staking = Staking::new();
    // A locked stake of 1_000_000 registers in the next round.
    add_locked_stake(&mut cortex, &mut staking, 1_000_000, 0, 5).unwrap();
    assert_eq!(cortex.next_staking_round.total_stake, 1_000_000);

    // First resolution: the empty current round resolves at rate zero and the
    // staked round is promoted.
    resolve_staking_round(&mut cortex, 0, 21_600).unwrap();
    assert_eq!(cortex.resolved_staking_rounds[0].rate, 0);
    assert_eq!(cortex.resolved_staking_rounds[0].total_stake, 0);
    assert_eq!(cortex.current_staking_round.total_stake, 1_000_000);
    assert_eq!(cortex.next_staking_round.total_stake, 0);

    // Second resolution: 50_000 reward tokens accrued to the staked round fix
    // its rate at 50_000 × 1e9 / 1_000_000 = 50_000_000.
    resolve_staking_round(&mut cortex, 50_000, 43_200).unwrap();
    let resolved = cortex.resolved_staking_rounds[1];
    assert_eq!(resolved.start_time, 21_600);
    assert_eq!(resolved.rate, 50_000_000);
    assert_eq!(resolved.total_stake, 1_000_000);
    assert_eq!(resolved.total_claim, 0);
    assert_eq!(cortex.resolved_reward_token_amount, 50_000);
    assert_eq!(cortex.resolved_stake_token_amount, 1_000_000);
}

#[test]
fn test_resolve_round_respects_bound() {
    // A ledger whose resolved list is full refuses to grow it.
    let full_round = StakingRound {
        start_time: 10,
        rate: 1,
        total_stake: 5,
        total_claim: 0,
    };
    let mut cortex = Cortex::new(100_000, 0, 6, 6);
    cortex.resolved_staking_rounds = vec![full_round; MAX_RESOLVED_ROUNDS];
    let r = resolve_staking_round(&mut cortex, 0, 100_000 + ROUND_MIN_DURATION_SECONDS);
    assert_eq!(r, Err(PerpetualsError::StorageResizeFailure));
    assert_eq!(cortex.resolved_staking_rounds.len(), MAX_RESOLVED_ROUNDS);
}

#[test]
fn test_resolve_round_rejects_unrepresentable_rate() {
    // A huge reward over a tiny stake puts the rate outside u64 range; the
    // resolution fails and nothing changes.
    let mut cortex = Cortex::new(0, 0, 6, 6);
    let mut staking = Staking::new();
    add_liquid_stake(&mut cortex, &mut staking, 1, 5).unwrap();
    resolve_staking_round(&mut cortex, 0, ROUND_MIN_DURATION_SECONDS).unwrap();
    let before_len = cortex.resolved_staking_rounds.len();
    let r = resolve_staking_round(&mut cortex, u64::MAX, 2 * ROUND_MIN_DURATION_SECONDS);
    assert_eq!(r, Err(PerpetualsError::ArithmeticOverflow));
    assert_eq!(cortex.resolved_staking_rounds.len(), before_len);
}

#[test]
fn test_claim_cannot_exceed_round_stake() {
    // An account whose eligible weight exceeds what the round has registered
    // would break conservation; the claim fails and nothing changes.
    let round = StakingRound {
        start_time: 100,
        rate: 50_000_000,
        total_stake: 500_000,
        total_claim: 0,
    };
    let mut cortex = cortex_with_round(round, 200, 1_000_000);
    let mut staking = locked_staker(1_000_000, 50);
    let r = claim_stakes(&mut cortex, &mut staking, 1_000_000);
    assert_eq!(r, Err(PerpetualsError::ArithmeticOverflow));
    assert_eq!(cortex.resolved_staking_rounds[0].total_claim, 0);
    assert_eq!(staking.locked_stakes[0].claim_time, 50);
}

#[test]
fn test_unresolved_reward_pool() {
    let mut cortex = Cortex::new(0, 0, 6, 6);
    cortex.resolved_reward_token_amount = 40_000;
    assert_eq!(unresolved_reward_pool(&cortex, 100_000), Ok(60_000));
    assert_eq!(
        unresolved_reward_pool(&cortex, 39_999),
        Err(PerpetualsError::ArithmeticUnderflow)
    );
}

#[test]
fn test_boundedness_under_repeated_resolution() {
    let mut cortex = Cortex::new(0, 0, 6, 6);
    let mut now = 0i64;
    for _ in 0..5 {
        now += ROUND_MIN_DURATION_SECONDS;
        resolve_staking_round(&mut cortex, 0, now).unwrap();
        assert!(cortex.resolved_staking_rounds.len() <= MAX_RESOLVED_ROUNDS);
    }
    assert_eq!(cortex.resolved_staking_rounds.len(), 5);
}

#[test]
fn test_claim_settles_round_and_prunes_it() {
    // A resolved round with total_stake 1_000_000 and rate 50_000_000 at
    // RATE_DECIMALS = 9; one locked stake of weight 1_000_000 created before
    // the round opened. The reward is 1_000_000 × 50_000_000 / 1e9 = 50_000
    // at equal stake and reward decimals; claiming it settles the whole round
    // and prunes it in the same call.
    let round = StakingRound {
        start_time: 100,
        rate: 50_000_000,
        total_stake: 1_000_000,
        total_claim: 0,
    };
    let mut cortex = cortex_with_round(round, 200, 1_000_000);
    let mut staking = locked_staker(1_000_000, 50);

    let paid = claim_stakes(&mut cortex, &mut staking, 1_000_000).unwrap();
    assert_eq!(paid, 50_000);
    // total_claim reached total_stake, so the round is gone.
    assert_eq!(cortex.resolved_staking_rounds.len(), 0);
    // The stake stays eligible for the current round.
    assert_eq!(staking.locked_stakes[0].claim_time, 199);
    assert_eq!(staking.liquid_stake.claim_time, 199);
    // The locked weight moved from the current round's bucket to the next's.
    assert_eq!(cortex.current_staking_round.total_stake, 0);
    assert_eq!(cortex.next_staking_round.total_stake, 1_000_000);
    // The claimable aggregates shrank by what was settled.
    assert_eq!(cortex.resolved_reward_token_amount, 1_000_000 - 50_000);
    assert_eq!(cortex.resolved_stake_token_amount, 10_000_000 - 1_000_000);
}

#[test]
fn test_claim_pays_nothing_for_round_opened_before_stake() {
    // No retroactive rewards: a stake created after a round opened earns
    // nothing from it, and a stake present from a round's opening earns from
    // that round.
    let stale_round = StakingRound {
        start_time: 100,
        rate: 50_000_000,
        total_stake: 1_000_000,
        total_claim: 0,
    };
    let fresh_round = StakingRound {
        start_time: 101,
        rate: 50_000_000,
        total_stake: 1_000_000,
        total_claim: 0,
    };
    // The liquid stake was created at t = 100: at the first round's opening,
    // not before it.
    let mut cortex = cortex_with_round(stale_round, 200, 0);
    cortex.resolved_staking_rounds.push(fresh_round);
    let mut staking = liquid_staker(1_000_000, 100);

    let paid = claim_stakes(&mut cortex, &mut staking, 1_000_000).unwrap();
    // Only the round opened after the stake existed pays: 50_000 from it,
    // nothing from the other.
    assert_eq!(paid, 50_000);
    // The paying round settled fully and is gone; the other stays untouched.
    assert_eq!(cortex.resolved_staking_rounds.len(), 1);
    assert_eq!(cortex.resolved_staking_rounds[0].start_time, 100);
    assert_eq!(cortex.resolved_staking_rounds[0].total_claim, 0);
}

#[test]
fn test_claim_twice_pays_once() {
    // No double claim: a second claim with no resolution in between pays
    // zero and leaves everything unchanged.
    let round = StakingRound {
        start_time: 100,
        rate: 50_000_000,
        total_stake: 2_000_000,
        total_claim: 0,
    };
    let mut cortex = cortex_with_round(round, 200, 1_000_000);
    let mut staking = locked_staker(1_000_000, 50);

    let first = claim_stakes(&mut cortex, &mut staking, 1_000_000).unwrap();
    assert_eq!(first, 50_000);
    // The round is only half settled, so it stays.
    assert_eq!(cortex.resolved_staking_rounds.len(), 1);
    assert_eq!(cortex.resolved_staking_rounds[0].total_claim, 1_000_000);

    let cortex_before = cortex.clone();
    let second = claim_stakes(&mut cortex, &mut staking, 1_000_000).unwrap();
    assert_eq!(second, 0);
    assert_eq!(
        cortex.resolved_staking_rounds,
        cortex_before.resolved_staking_rounds
    );
    assert_eq!(
        cortex.current_staking_round,
        cortex_before.current_staking_round
    );
    assert_eq!(cortex.next_staking_round, cortex_before.next_staking_round);
    assert_eq!(
        cortex.resolved_reward_token_amount,
        cortex_before.resolved_reward_token_amount
    );
    assert_eq!(
        cortex.resolved_stake_token_amount,
        cortex_before.resolved_stake_token_amount
    );
    assert_eq!(staking.locked_stakes[0].claim_time, 199);
}

#[test]
fn test_conservation_across_two_accounts() {
    // Two accounts of equal weight settle a round in turn: the round's
    // claimed weight never exceeds its registered stake, and the round is
    // pruned exactly when they match.
    let round = StakingRound {
        start_time: 100,
        rate: 50_000_000,
        total_stake: 2_000_000,
        total_claim: 0,
    };
    let mut cortex = cortex_with_round(round, 200, 0);
    let mut first_account = liquid_staker(1_000_000, 50);
    let mut second_account = liquid_staker(1_000_000, 60);

    let paid = claim_stakes(&mut cortex, &mut first_account, 1_000_000).unwrap();
    assert_eq!(paid, 50_000);
    let half_settled = cortex.resolved_staking_rounds[0];
    assert_eq!(half_settled.total_claim, 1_000_000);
    assert!(half_settled.total_claim <= half_settled.total_stake);

    let paid = claim_stakes(&mut cortex, &mut second_account, 1_000_000).unwrap();
    assert_eq!(paid, 50_000);
    assert_eq!(cortex.resolved_staking_rounds.len(), 0);
}

#[test]
fn test_claim_needs_vault_balance() {
    let round = StakingRound {
        start_time: 100,
        rate: 50_000_000,
        total_stake: 1_000_000,
        total_claim: 0,
    };
    let mut cortex = cortex_with_round(round, 200, 1_000_000);
    let mut staking = locked_staker(1_000_000, 50);
    let r = claim_stakes(&mut cortex, &mut staking, 49_999);
    assert_eq!(r, Err(PerpetualsError::InsufficientVaultBalance));
    // All-or-nothing: the failed claim changed nothing.
    assert_eq!(cortex.resolved_staking_rounds[0].total_claim, 0);
    assert_eq!(staking.locked_stakes[0].claim_time, 50);
    assert_eq!(cortex.current_staking_round.total_stake, 1_000_000);
}

#[test]
fn test_claim_with_nothing_eligible_is_noop() {
    let round = StakingRound {
        start_time: 100,
        rate: 50_000_000,
        total_stake: 1_000_000,
        total_claim: 0,
    };
    let mut cortex = cortex_with_round(round, 200, 0);
    // Created after the round opened: nothing to claim, nothing changes.
    let mut staking = locked_staker(1_000_000, 150);
    let paid = claim_stakes(&mut cortex, &mut staking, 0).unwrap();
    assert_eq!(paid, 0);
    assert_eq!(staking.locked_stakes[0].claim_time, 150);
    assert_eq!(cortex.resolved_staking_rounds.len(), 1);
    assert_eq!(cortex.next_staking_round.total_stake, 0);
}

#[test]
fn test_claim_prunes_empty_rounds() {
    // A resolved round that registered no stake is fully settled from the
    // start and is pruned by the next claim, even one that pays nothing.
    let empty_round = StakingRound {
        start_time: 100,
        rate: 0,
        total_stake: 0,
        total_claim: 0,
    };
    let mut cortex = cortex_with_round(empty_round, 200, 0);
    let mut staking = liquid_staker(0, 150);
    let paid = claim_stakes(&mut cortex, &mut staking, 0).unwrap();
    assert_eq!(paid, 0);
    assert_eq!(cortex.resolved_staking_rounds.len(), 0);
}

#[test]
fn test_claim_on_fresh_ledger_pays_nothing() {
    let mut cortex = Cortex::new(0, 0, 6, 6);
    let mut staking = Staking::new();
    assert_eq!(claim_stakes(&mut cortex, &mut staking, 0), Ok(0));
    assert_eq!(cortex.resolved_staking_rounds.len(), 0);
}

#[test]
fn test_claim_rounding_dust_stays_in_vault() {
    // Three stakes of weight 333_333 each against a round of 1_000_000 at
    // rate 50_000_000: each payout rounds down to 16_666, so 49_998 of the
    // 50_000 allocated reward tokens are paid and 2 stay in the vault as
    // dust. The round keeps the 1 unsettled weight unit.
    let round = StakingRound {
        start_time: 100,
        rate: 50_000_000,
        total_stake: 1_000_000,
        total_claim: 0,
    };
    let mut cortex = cortex_with_round(round, 200, 999_999);
    let stake = LockedStake {
        amount: 333_333,
        amount_with_multiplier: 333_333,
        stake_time: 50,
        claim_time: 50,
        lock_duration: 0,
    };
    let mut staking = Staking {
        liquid_stake: empty_liquid_stake(50),
        locked_stakes: vec![stake; 3],
    };
    let paid = claim_stakes(&mut cortex, &mut staking, 50_000).unwrap();
    assert_eq!(paid, 3 * 16_666);
    assert_eq!(cortex.resolved_staking_rounds.len(), 1);
    assert_eq!(cortex.resolved_staking_rounds[0].total_claim, 999_999);
}

#[test]
fn test_liquid_stake_lifecycle_through_rounds() {
    // A full life cycle through the public operations alone: stake, let two
    // rounds resolve, claim the staked round's reward, and keep claiming
    // harmlessly as later empty rounds resolve.
    let mut cortex = Cortex::new(0, 0, 6, 6);
    let mut staking = Staking::new();
    let mut vault: u64 = 50_000;
    add_liquid_stake(&mut cortex, &mut staking, 1_000_000, 5).unwrap();

    // The opening round resolves empty; the staked round opens.
    resolve_staking_round(&mut cortex, 0, 21_600).unwrap();
    // The staked round resolves with 50_000 reward tokens accrued.
    resolve_staking_round(&mut cortex, 50_000, 43_200).unwrap();

    let paid = claim_stakes(&mut cortex, &mut staking, vault).unwrap();
    assert_eq!(paid, 50_000);
    vault -= paid;
    // Both resolved rounds settled away: the empty one and the claimed one.
    assert_eq!(cortex.resolved_staking_rounds.len(), 0);
    assert_eq!(staking.liquid_stake.claim_time, 43_199);

    // Another round resolves with nothing registered; claiming again pays
    // nothing, prunes it, and changes nothing else.
    resolve_staking_round(&mut cortex, 0, 64_800).unwrap();
    let paid = claim_stakes(&mut cortex, &mut staking, vault).unwrap();
    assert_eq!(paid, 0);
    assert_eq!(cortex.resolved_staking_rounds.len(), 0);
    assert_eq!(staking.liquid_stake.claim_time, 43_199);
}

#[test]
fn test_add_and_remove_liquid_stake() {
    let mut cortex = Cortex::new(0, 0, 6, 6);
    let mut staking = Staking::new();
    add_liquid_stake(&mut cortex, &mut staking, 500, 7).unwrap();
    assert_eq!(staking.liquid_stake.amount, 500);
    assert_eq!(staking.liquid_stake.amount_with_multiplier, 500);
    assert_eq!(staking.liquid_stake.claim_time, 7);
    assert_eq!(cortex.next_staking_round.total_stake, 500);

    add_liquid_stake(&mut cortex, &mut staking, 300, 9).unwrap();
    assert_eq!(staking.liquid_stake.amount, 800);
    assert_eq!(cortex.next_staking_round.total_stake, 800);

    remove_liquid_stake(&mut cortex, &mut staking, 600).unwrap();
    assert_eq!(staking.liquid_stake.amount, 200);
    assert_eq!(cortex.next_staking_round.total_stake, 200);

    assert_eq!(
        remove_liquid_stake(&mut cortex, &mut staking, 201),
        Err(PerpetualsError::ArithmeticUnderflow)
    );
    assert_eq!(staking.liquid_stake.amount, 200);
}

#[test]
fn test_add_liquid_stake_overflow_is_rejected() {
    let mut cortex = Cortex::new(0, 0, 6, 6);
    let mut staking = Staking::new();
    add_liquid_stake(&mut cortex, &mut staking, u64::MAX, 7).unwrap();
    assert_eq!(
        add_liquid_stake(&mut cortex, &mut staking, 1, 8),
        Err(PerpetualsError::ArithmeticOverflow)
    );
    assert_eq!(staking.liquid_stake.amount, u64::MAX);
    assert_eq!(staking.liquid_stake.claim_time, 7);
}

#[test]
fn test_add_and_remove_locked_stake() {
    let mut cortex = Cortex::new(0, 0, 6, 6);
    let mut staking = Staking::new();
    // A one-year lock doubles the reward weight.
    add_locked_stake(&mut cortex, &mut staking, 1_000, SECONDS_PER_YEAR, 7).unwrap();
    assert_eq!(staking.locked_stakes.len(), 1);
    assert_eq!(staking.locked_stakes[0].amount, 1_000);
    assert_eq!(staking.locked_stakes[0].amount_with_multiplier, 2_000);
    assert_eq!(staking.locked_stakes[0].claim_time, 7);
    assert_eq!(cortex.next_staking_round.total_stake, 2_000);

    assert_eq!(
        remove_locked_stake(&mut cortex, &mut staking, 3),
        Err(PerpetualsError::StakeNotFound)
    );
    remove_locked_stake(&mut cortex, &mut staking, 0).unwrap();
    assert_eq!(staking.locked_stakes.len(), 0);
    assert_eq!(cortex.next_staking_round.total_stake, 0);
}

#[test]
fn test_locked_stake_list_is_bounded() {
    let mut cortex = Cortex::new(0, 0, 6, 6);
    let mut staking = Staking::new();
    for _ in 0..MAX_LOCKED_STAKES {
        add_locked_stake(&mut cortex, &mut staking, 10, 0, 1).unwrap();
    }
    assert_eq!(
        add_locked_stake(&mut cortex, &mut staking, 10, 0, 1),
        Err(PerpetualsError::StorageResizeFailure)
    );
    assert_eq!(staking.locked_stakes.len(), MAX_LOCKED_STAKES);
}

#[test]
fn test_lock_multiplier_values() {
    assert_eq!(lock_multiplier_bps(0), 10_000);
    assert_eq!(lock_multiplier_bps(SECONDS_PER_YEAR / 2), 15_000);
    assert_eq!(lock_multiplier_bps(SECONDS_PER_YEAR), 20_000);
    // Commitments past one year stop growing.
    assert_eq!(lock_multiplier_bps(SECONDS_PER_YEAR * 10), 20_000);
    // Longer commitments never yield a smaller multiplier.
    let mut previous = lock_multiplier_bps(0);
    for duration in [1u64, 100, 86_400, 2_592_000, 7_776_000, SECONDS_PER_YEAR] {
        let multiplier = lock_multiplier_bps(duration);
        assert!(multiplier >= previous);
        previous = multiplier;
    }
    // 90 days: 10_000 + (10_000 × 7_776_000) / 31_536_000 = 12_465 bps,
    // so 1_000 × 12_465 / 10_000 = 1_246 rounded toward zero.
    assert_eq!(compute_amount_with_multiplier(1_000, 7_776_000), Ok(1_246));
}

#[test]
fn test_split_claim_reward() {
    // The protocol currently activates no split.
    assert_eq!(split_claim_reward(50_000, false, 0), (50_000, 0));
    // The owner never pays a caller share to itself.
    assert_eq!(split_claim_reward(50_000, true, 500), (50_000, 0));
    // A configured 5% share for a third-party caller.
    assert_eq!(split_claim_reward(50_000, false, 500), (47_500, 2_500));
}
