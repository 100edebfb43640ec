use credence_bond::redeem::{
    available_liquidity, check_redeem, redeemable_balance, settle_redeem,
    simulate_redeem_amount, validate_liquidity_available, BondBalances, RedeemConfig,
    RedeemError, RedeemSettlement,
};

fn settle_redeem_owner(
    position: &BondBalances,
    config: &RedeemConfig,
    total_liquidity: i128,
    amount: i128,
) -> Result<RedeemSettlement, RedeemError> {
    settle_redeem(position, true, config, total_liquidity, amount)
}

fn bond(bonded: i128, slashed: i128) -> BondBalances {
    BondBalances { bonded_amount: bonded, slashed_amount: slashed }
}

#[test]
fn test_redeem_success_with_sufficient_liquidity() {
    let config = RedeemConfig::default();
    let settled = settle_redeem_owner(&bond(1_000_000, 0), &config, 500_000, 100_000).unwrap();
    assert_eq!(settled.bond.bonded_amount, 900_000);
    assert_eq!(settled.total_liquidity, 400_000);
}

#[test]
fn test_redeem_fails_with_insufficient_liquidity() {
    let config = RedeemConfig::default();
    let outcome = settle_redeem_owner(&bond(1_000_000, 0), &config, 50_000, 100_000);
    assert_eq!(outcome.unwrap_err(), RedeemError::InsufficientLiquidity);
}

#[test]
fn test_redeem_respects_minimum_reserve() {
    let config = RedeemConfig { min_liquidity_reserve: 100_000, max_redeem_amount: i128::MAX };
    let outcome = settle_redeem_owner(&bond(1_000_000, 0), &config, 200_000, 150_000);
    assert_eq!(outcome.unwrap_err(), RedeemError::InsufficientLiquidity);
}

#[test]
fn test_redeem_fails_with_insufficient_balance() {
    let config = RedeemConfig::default();
    let outcome = settle_redeem_owner(&bond(1_000_000, 0), &config, 2_000_000, 1_500_000);
    assert_eq!(outcome.unwrap_err(), RedeemError::InsufficientBalance);
}

#[test]
fn test_redeem_respects_slashed_amount() {
    let config = RedeemConfig::default();
    let outcome = settle_redeem_owner(&bond(1_000_000, 300_000), &config, 2_000_000, 800_000);
    assert_eq!(outcome.unwrap_err(), RedeemError::InsufficientBalance);
}

#[test]
fn test_redeem_rejects_zero_amount() {
    let config = RedeemConfig::default();
    let outcome = settle_redeem_owner(&bond(1_000_000, 0), &config, 1_000_000, 0);
    assert_eq!(outcome.unwrap_err(), RedeemError::NonPositiveAmount);
}

#[test]
fn test_redeem_rejects_negative_amount() {
    let config = RedeemConfig::default();
    let outcome = settle_redeem_owner(&bond(1_000_000, 0), &config, 1_000_000, -1000);
    assert_eq!(outcome.unwrap_err(), RedeemError::NonPositiveAmount);
}

#[test]
fn test_redeem_respects_max_amount_limit() {
    let config = RedeemConfig { min_liquidity_reserve: 0, max_redeem_amount: 500_000 };
    let outcome = settle_redeem_owner(&bond(1_000_000, 0), &config, 2_000_000, 600_000);
    assert_eq!(outcome.unwrap_err(), RedeemError::ExceedsMaximum);
}

#[test]
fn test_redeem_preserves_invariant_slashed_never_exceeds_bonded() {
    let config = RedeemConfig::default();
    let settled = settle_redeem_owner(&bond(1_000_000, 900_000), &config, 1_000_000, 50_000).unwrap();
    assert_eq!(settled.bond.bonded_amount, 950_000);
    assert_eq!(settled.bond.slashed_amount, 900_000);
    assert!(settled.bond.slashed_amount <= settled.bond.bonded_amount);
}

#[test]
fn test_simulate_redeem_does_not_modify_state() {
    let config = RedeemConfig::default();
    let position = bond(1_000_000, 0);
    let simulated = simulate_redeem_amount(&position, true, &config, 1_000_000, 100_000);
    assert_eq!(simulated, Ok(100_000));
    // The simulated amount is what the redemption from the same state takes.
    let settled = settle_redeem_owner(&position, &config, 1_000_000, 100_000).unwrap();
    assert_eq!(position.bonded_amount - settled.bond.bonded_amount, simulated.unwrap());
    assert_eq!(1_000_000 - settled.total_liquidity, 100_000);
}

#[test]
fn test_simulate_redeem_validates_liquidity() {
    let config = RedeemConfig::default();
    let simulated = simulate_redeem_amount(&bond(1_000_000, 0), true, &config, 50_000, 100_000);
    assert_eq!(simulated, Err(RedeemError::InsufficientLiquidity));
}

#[test]
fn test_get_available_liquidity_respects_reserve() {
    let config = RedeemConfig { min_liquidity_reserve: 100_000, max_redeem_amount: i128::MAX };
    assert_eq!(available_liquidity(500_000, &config), 400_000);
}

#[test]
fn test_get_available_liquidity_never_negative() {
    let config = RedeemConfig { min_liquidity_reserve: 1_000_000, max_redeem_amount: i128::MAX };
    assert_eq!(available_liquidity(500_000, &config), 0);
}

#[test]
fn test_redeem_multiple_times_atomicity() {
    let config = RedeemConfig::default();
    let first = settle_redeem_owner(&bond(1_000_000, 0), &config, 1_000_000, 100_000).unwrap();
    assert_eq!(first.bond.bonded_amount, 900_000);
    let second = settle_redeem_owner(&first.bond, &config, first.total_liquidity, 200_000).unwrap();
    assert_eq!(second.bond.bonded_amount, 700_000);
    assert_eq!(second.total_liquidity, 700_000);
}

#[test]
fn default_config_has_no_reserve_and_no_limit() {
    let config = RedeemConfig::default();
    assert_eq!(config.min_liquidity_reserve, 0);
    assert_eq!(config.max_redeem_amount, i128::MAX);
}

#[test]
fn available_liquidity_saturates() {
    let negative_reserve = RedeemConfig { min_liquidity_reserve: i128::MIN, max_redeem_amount: 0 };
    assert_eq!(available_liquidity(1, &negative_reserve), i128::MAX);
    let huge_reserve = RedeemConfig { min_liquidity_reserve: i128::MAX, max_redeem_amount: 0 };
    assert_eq!(available_liquidity(-2, &huge_reserve), 0);
    assert_eq!(available_liquidity(-2, &RedeemConfig::default()), 0);
}

#[test]
fn liquidity_check_requires_positive_amount_within_available() {
    assert!(validate_liquidity_available(5, 5));
    assert!(!validate_liquidity_available(6, 5));
    assert!(!validate_liquidity_available(0, 5));
    assert!(!validate_liquidity_available(-1, 5));
}

#[test]
fn redeemable_balance_is_bonded_minus_slashed() {
    assert_eq!(redeemable_balance(&bond(1_000_000, 300_000)), Some(700_000));
    assert_eq!(redeemable_balance(&bond(100, 300)), Some(-200));
    assert_eq!(redeemable_balance(&bond(i128::MIN, 1)), None);
}

#[test]
fn overflowing_redeemable_balance_is_refused() {
    let config = RedeemConfig::default();
    let outcome = settle_redeem_owner(&bond(i128::MIN, 1), &config, 1_000_000, 10);
    assert_eq!(outcome.unwrap_err(), RedeemError::SlashedExceedsBonded);
    let checked = check_redeem(&bond(i128::MIN, 1), true, &config, 1_000_000, 10);
    assert_eq!(checked, Err(RedeemError::SlashedExceedsBonded));
}

#[test]
fn slashed_above_bonded_has_nothing_to_redeem() {
    let config = RedeemConfig::default();
    let outcome = settle_redeem_owner(&bond(100, 300), &config, 1_000_000, 1);
    assert_eq!(outcome.unwrap_err(), RedeemError::InsufficientBalance);
}

#[test]
fn check_refuses_non_owner_first() {
    let config = RedeemConfig::default();
    let checked = check_redeem(&bond(1_000_000, 0), false, &config, 0, 0);
    assert_eq!(checked, Err(RedeemError::NotBondOwner));
    let simulated = simulate_redeem_amount(&bond(1_000_000, 0), false, &config, 1_000_000, 10);
    assert_eq!(simulated, Err(RedeemError::NotBondOwner));
}

#[test]
fn check_agrees_with_settlement() {
    let config = RedeemConfig { min_liquidity_reserve: 100_000, max_redeem_amount: 500_000 };
    for amount in [-5i128, 0, 1, 99_999, 100_000, 100_001, 400_000, 500_000, 500_001] {
        for liquidity in [0i128, 150_000, 200_000, 1_000_000] {
            for owner in [true, false] {
                let position = bond(900_000, 200_000);
                let checked = check_redeem(&position, owner, &config, liquidity, amount);
                let settled = settle_redeem(&position, owner, &config, liquidity, amount);
                assert_eq!(checked.is_ok(), settled.is_ok());
                if let Err(e) = checked {
                    assert_eq!(settled.unwrap_err(), e);
                }
            }
        }
    }
}

#[test]
fn check_enforces_maximum_as_settlement_does() {
    let config = RedeemConfig { min_liquidity_reserve: 0, max_redeem_amount: 500_000 };
    let position = bond(1_000_000, 0);
    assert_eq!(
        check_redeem(&position, true, &config, 2_000_000, 600_000),
        Err(RedeemError::ExceedsMaximum)
    );
    assert_eq!(
        simulate_redeem_amount(&position, true, &config, 2_000_000, 600_000),
        Err(RedeemError::ExceedsMaximum)
    );
    assert_eq!(
        settle_redeem_owner(&position, &config, 2_000_000, 600_000).unwrap_err(),
        RedeemError::ExceedsMaximum
    );
    assert_eq!(check_redeem(&position, true, &config, 2_000_000, 500_000), Ok(()));
}

#[test]
fn successive_redemptions_match_one_combined_redemption() {
    let config = RedeemConfig { min_liquidity_reserve: 50_000, max_redeem_amount: 400_000 };
    let position = bond(1_000_000, 100_000);
    let first = settle_redeem_owner(&position, &config, 600_000, 100_000).unwrap();
    let second = settle_redeem_owner(&first.bond, &config, first.total_liquidity, 200_000).unwrap();
    let combined = settle_redeem_owner(&position, &config, 600_000, 300_000).unwrap();
    assert_eq!(second.bond.bonded_amount, combined.bond.bonded_amount);
    assert_eq!(second.bond.slashed_amount, combined.bond.slashed_amount);
    assert_eq!(second.total_liquidity, combined.total_liquidity);
    assert_eq!(combined.bond.bonded_amount, 700_000);
    assert_eq!(combined.total_liquidity, 300_000);
}

#[test]
fn settlement_takes_equal_amounts_from_bond_and_liquidity() {
    let config = RedeemConfig::default();
    let position = bond(5_000, 1_000);
    let settled = settle_redeem_owner(&position, &config, 9_000, 4_000).unwrap();
    assert_eq!(position.bonded_amount - settled.bond.bonded_amount, 4_000);
    assert_eq!(9_000 - settled.total_liquidity, 4_000);
    assert_eq!(settled.bond.slashed_amount, settled.bond.bonded_amount);
}

#[test]
fn non_owner_redemption_is_refused() {
    let config = RedeemConfig::default();
    let outcome = settle_redeem(&bond(1_000_000, 0), false, &config, 1_000_000, 100_000);
    assert_eq!(outcome.unwrap_err(), RedeemError::NotBondOwner);
    // Ownership is checked before the amount.
    let outcome = settle_redeem(&bond(1_000_000, 0), false, &config, 1_000_000, 0);
    assert_eq!(outcome.unwrap_err(), RedeemError::NotBondOwner);
}
