//! Redemption rules.
//!
//! A redemption is validated in full before any balance changes: the caller
//! must own the bond, and the amount must be positive, within the
//! per-transaction maximum, within the bond's redeemable balance (bonded
//! minus slashed) and within the liquidity available above the minimum
//! reserve. Only then do the bonded amount and
//! the total liquidity both drop by the redeemed amount.

use vstd::prelude::*;

verus! {

/// Configuration for redemptions.
#[derive(Clone, Copy, Debug)]
pub struct RedeemConfig {
    /// Minimum liquidity reserve (prevents draining the contract).
    pub min_liquidity_reserve: i128,
    /// Maximum redeem amount per transaction (safety limit).
    pub max_redeem_amount: i128,
}

impl Default for RedeemConfig {
    /// No reserve and no per-transaction limit.
    fn default() -> (config: Self)
        ensures
            config.min_liquidity_reserve == 0,
            config.max_redeem_amount == i128::MAX,
    {
        RedeemConfig { min_liquidity_reserve: 0, max_redeem_amount: i128::MAX }
    }
}

/// The balances of a bond that the redemption rules read and change.
#[derive(Clone, Copy, Debug)]
pub struct BondBalances {
    /// Amount currently bonded.
    pub bonded_amount: i128,
    /// Amount slashed from the bond, which cannot be redeemed.
    pub slashed_amount: i128,
}

/// Why a redemption is refused.
#[derive(Clone, Copy, Debug, PartialEq, Eq, Structural)]
pub enum RedeemError {
    /// The caller does not own the bond.
    NotBondOwner,
    /// The amount is zero or negative.
    NonPositiveAmount,
    /// The amount exceeds the configured per-transaction maximum.
    ExceedsMaximum,
    /// `bonded - slashed` leaves the `i128` range.
    SlashedExceedsBonded,
    /// The amount exceeds the redeemable balance (bonded minus slashed).
    InsufficientBalance,
    /// The amount exceeds the liquidity available above the reserve.
    InsufficientLiquidity,
}

/// The state after a settled redemption.
#[derive(Clone, Copy, Debug)]
pub struct RedeemSettlement {
    /// The bond with its reduced position.
    pub bond: BondBalances,
    /// The total liquidity after the redeemed amount left it.
    pub total_liquidity: i128,
}

/// `a - b` saturated to the `i128` range.
pub open spec fn saturating_difference(a: int, b: int) -> int {
    if a - b > i128::MAX {
        i128::MAX as int
    } else if a - b < i128::MIN {
        i128::MIN as int
    } else {
        a - b
    }
}

/// Liquidity available for redemptions: the total balance above the minimum
/// reserve (saturating), and never negative.
pub open spec fn available_liquidity_of(total_balance: int, min_reserve: int) -> int {
    let available = saturating_difference(total_balance, min_reserve);
    if available < 0 {
        0
    } else {
        available
    }
}

/// Whether `bonded - slashed` fits in `i128`.
pub open spec fn redeemable_fits(bond: BondBalances) -> bool {
    i128::MIN <= bond.bonded_amount - bond.slashed_amount <= i128::MAX
}

/// The outcome of redeeming `amount` from `bond` under `config` when the
/// contract holds `total_liquidity`: the first failed check, in the order
/// ownership, amount sign, per-transaction maximum, redeemable balance,
/// liquidity; or the settled state, with both the bonded amount and the
/// liquidity reduced by `amount`.
pub open spec fn redeem_outcome(
    bond: BondBalances,
    caller_is_owner: bool,
    config: RedeemConfig,
    total_liquidity: i128,
    amount: i128,
) -> Result<RedeemSettlement, RedeemError> {
    if !caller_is_owner {
        Err(RedeemError::NotBondOwner)
    } else if amount <= 0 {
        Err(RedeemError::NonPositiveAmount)
    } else if amount > config.max_redeem_amount {
        Err(RedeemError::ExceedsMaximum)
    } else if !redeemable_fits(bond) {
        Err(RedeemError::SlashedExceedsBonded)
    } else if amount > bond.bonded_amount - bond.slashed_amount {
        Err(RedeemError::InsufficientBalance)
    } else if amount > available_liquidity_of(
        total_liquidity as int,
        config.min_liquidity_reserve as int,
    ) {
        Err(RedeemError::InsufficientLiquidity)
    } else {
        Ok(
            RedeemSettlement {
                bond: BondBalances {
                    bonded_amount: (bond.bonded_amount - amount) as i128,
                    slashed_amount: bond.slashed_amount,
                },
                total_liquidity: (total_liquidity - amount) as i128,
            },
        )
    }
}

/// The outcome of checking a redemption without performing it: the first
/// failed check, in the order ownership, amount sign, per-transaction
/// maximum, redeemable balance, liquidity.
pub open spec fn redeem_check(
    bond: BondBalances,
    caller_is_owner: bool,
    config: RedeemConfig,
    total_liquidity: i128,
    amount: i128,
) -> Result<(), RedeemError> {
    if !caller_is_owner {
        Err(RedeemError::NotBondOwner)
    } else if amount <= 0 {
        Err(RedeemError::NonPositiveAmount)
    } else if amount > config.max_redeem_amount {
        Err(RedeemError::ExceedsMaximum)
    } else if !redeemable_fits(bond) {
        Err(RedeemError::SlashedExceedsBonded)
    } else if amount > bond.bonded_amount - bond.slashed_amount {
        Err(RedeemError::InsufficientBalance)
    } else if amount > available_liquidity_of(
        total_liquidity as int,
        config.min_liquidity_reserve as int,
    ) {
        Err(RedeemError::InsufficientLiquidity)
    } else {
        Ok(())
    }
}

/// Get total available liquidity: `max(total_balance - min_reserve, 0)`,
/// where the subtraction saturates at the `i128` bounds.
pub fn available_liquidity(total_balance: i128, config: &RedeemConfig) -> (available: i128)
    ensures
        available == available_liquidity_of(
            total_balance as int,
            config.min_liquidity_reserve as int,
        ),
        available >= 0,
        available == if total_balance - config.min_liquidity_reserve <= 0 {
            0
        } else if total_balance - config.min_liquidity_reserve > i128::MAX {
            i128::MAX as int
        } else {
            total_balance - config.min_liquidity_reserve
        },
{
    let difference = match total_balance.checked_sub(config.min_liquidity_reserve) {
        Some(difference) => difference,
        None => if config.min_liquidity_reserve < 0 {
            i128::MAX
        } else {
            i128::MIN
        },
    };
    // Ensure we never go below zero.
    if difference < 0 {
        0
    } else {
        difference
    }
}

/// Check if sufficient liquidity is available for a redemption: the amount
/// must be positive and at most the available liquidity.
pub fn validate_liquidity_available(amount: i128, available: i128) -> (ok: bool)
    ensures
        ok == (amount > 0 && amount <= available),
{
    if amount <= 0 {
        return false;
    }
    amount <= available
}

/// The redeemable balance `bonded - slashed`, or `None` where it leaves the
/// `i128` range.
pub fn redeemable_balance(bond: &BondBalances) -> (redeemable: Option<i128>)
    ensures
        redeemable_fits(*bond) <==> redeemable is Some,
        i128::MIN <= bond.bonded_amount - bond.slashed_amount <= i128::MAX <==> redeemable is Some,
        redeemable matches Some(r) ==> r == bond.bonded_amount - bond.slashed_amount,
{
    bond.bonded_amount.checked_sub(bond.slashed_amount)
}

/// Core redemption rule: validates the caller's ownership of the bond, the
/// amount against the configuration, the bond's redeemable balance and the
/// available liquidity, and only then reduces the bonded amount and the
/// total liquidity by `amount`.
pub fn settle_redeem(
    bond: &BondBalances,
    caller_is_owner: bool,
    config: &RedeemConfig,
    total_liquidity: i128,
    amount: i128,
) -> (outcome: Result<RedeemSettlement, RedeemError>)
    ensures
        outcome == redeem_outcome(*bond, caller_is_owner, *config, total_liquidity, amount),
        outcome is Ok <==> {
            &&& caller_is_owner
            &&& 0 < amount <= config.max_redeem_amount
            &&& i128::MIN <= bond.bonded_amount - bond.slashed_amount <= i128::MAX
            &&& amount <= bond.bonded_amount - bond.slashed_amount
            &&& amount <= total_liquidity - config.min_liquidity_reserve
        },
        !caller_is_owner ==> outcome == Err::<RedeemSettlement, RedeemError>(RedeemError::NotBondOwner),
        caller_is_owner && amount <= 0 ==> outcome == Err::<RedeemSettlement, RedeemError>(RedeemError::NonPositiveAmount),
        caller_is_owner && 0 < amount && amount > config.max_redeem_amount ==> outcome
            == Err::<RedeemSettlement, RedeemError>(RedeemError::ExceedsMaximum),
        caller_is_owner && 0 < amount <= config.max_redeem_amount && !(i128::MIN
            <= bond.bonded_amount - bond.slashed_amount <= i128::MAX) ==> outcome
            == Err::<RedeemSettlement, RedeemError>(RedeemError::SlashedExceedsBonded),
        caller_is_owner && 0 < amount <= config.max_redeem_amount && i128::MIN
            <= bond.bonded_amount - bond.slashed_amount <= i128::MAX && amount
            > bond.bonded_amount - bond.slashed_amount ==> outcome
            == Err::<RedeemSettlement, RedeemError>(RedeemError::InsufficientBalance),
        caller_is_owner && 0 < amount <= config.max_redeem_amount && i128::MIN
            <= bond.bonded_amount - bond.slashed_amount <= i128::MAX && amount
            <= bond.bonded_amount - bond.slashed_amount && amount > total_liquidity
            - config.min_liquidity_reserve ==> outcome == Err::<RedeemSettlement, RedeemError>(RedeemError::InsufficientLiquidity),
        outcome matches Ok(settled) ==> {
            &&& caller_is_owner
            &&& 0 < amount <= config.max_redeem_amount
            &&& settled.bond.bonded_amount == bond.bonded_amount - amount
            &&& settled.bond.slashed_amount == bond.slashed_amount
            &&& settled.total_liquidity == total_liquidity - amount
            &&& settled.bond.slashed_amount <= settled.bond.bonded_amount
        },
{
    // Validate the caller and the redeem amount before any state changes.
    if !caller_is_owner {
        return Err(RedeemError::NotBondOwner);
    }
    if amount <= 0 {
        return Err(RedeemError::NonPositiveAmount);
    }
    if amount > config.max_redeem_amount {
        return Err(RedeemError::ExceedsMaximum);
    }
    // Redeemable balance: bonded minus slashed.
    let redeemable = match redeemable_balance(bond) {
        Some(redeemable) => redeemable,
        None => return Err(RedeemError::SlashedExceedsBonded),
    };
    if amount > redeemable {
        return Err(RedeemError::InsufficientBalance);
    }
    // Validate liquidity before reducing the position.
    let available = available_liquidity(total_liquidity, config);
    if !validate_liquidity_available(amount, available) {
        return Err(RedeemError::InsufficientLiquidity);
    }
    // `amount <= bonded - slashed` and `amount <= total - reserve` (or the
    // saturated bound) keep both subtractions in range and the slashed
    // amount at or below the new bonded amount.
    let new_bond = BondBalances {
        bonded_amount: bond.bonded_amount - amount,
        slashed_amount: bond.slashed_amount,
    };
    Ok(RedeemSettlement { bond: new_bond, total_liquidity: total_liquidity - amount })
}

/// Validate all conditions of a redemption without performing it: the
/// caller owns the bond, the amount is positive, within the per-transaction
/// maximum and within the redeemable balance, and the liquidity is available.
pub fn check_redeem(
    bond: &BondBalances,
    caller_is_owner: bool,
    config: &RedeemConfig,
    total_liquidity: i128,
    amount: i128,
) -> (checked: Result<(), RedeemError>)
    ensures
        checked == redeem_check(*bond, caller_is_owner, *config, total_liquidity, amount),
        checked is Ok <==> {
            &&& caller_is_owner
            &&& 0 < amount <= config.max_redeem_amount
            &&& i128::MIN <= bond.bonded_amount - bond.slashed_amount <= i128::MAX
            &&& amount <= bond.bonded_amount - bond.slashed_amount
            &&& amount <= total_liquidity - config.min_liquidity_reserve
        },
        !caller_is_owner ==> checked == Err::<(), RedeemError>(RedeemError::NotBondOwner),
        caller_is_owner && amount <= 0 ==> checked == Err::<(), RedeemError>(RedeemError::NonPositiveAmount),
        caller_is_owner && 0 < amount && amount > config.max_redeem_amount ==> checked
            == Err::<(), RedeemError>(RedeemError::ExceedsMaximum),
        caller_is_owner && 0 < amount <= config.max_redeem_amount && !(i128::MIN
            <= bond.bonded_amount - bond.slashed_amount <= i128::MAX) ==> checked
            == Err::<(), RedeemError>(RedeemError::SlashedExceedsBonded),
        caller_is_owner && 0 < amount <= config.max_redeem_amount && i128::MIN
            <= bond.bonded_amount - bond.slashed_amount <= i128::MAX && amount
            > bond.bonded_amount - bond.slashed_amount ==> checked
            == Err::<(), RedeemError>(RedeemError::InsufficientBalance),
        caller_is_owner && 0 < amount <= config.max_redeem_amount && i128::MIN
            <= bond.bonded_amount - bond.slashed_amount <= i128::MAX && amount
            <= bond.bonded_amount - bond.slashed_amount && amount > total_liquidity
            - config.min_liquidity_reserve ==> checked == Err::<(), RedeemError>(RedeemError::InsufficientLiquidity),
{
    if !caller_is_owner {
        return Err(RedeemError::NotBondOwner);
    }
    if amount <= 0 {
        return Err(RedeemError::NonPositiveAmount);
    }
    if amount > config.max_redeem_amount {
        return Err(RedeemError::ExceedsMaximum);
    }
    let redeemable = match redeemable_balance(bond) {
        Some(redeemable) => redeemable,
        None => return Err(RedeemError::SlashedExceedsBonded),
    };
    if amount > redeemable {
        return Err(RedeemError::InsufficientBalance);
    }
    let available = available_liquidity(total_liquidity, config);
    if !validate_liquidity_available(amount, available) {
        return Err(RedeemError::InsufficientLiquidity);
    }
    Ok(())
}

/// Simulate a redemption without modifying state: the net amount that would
/// be received (the amount itself) once every check passes.
pub fn simulate_redeem_amount(
    bond: &BondBalances,
    caller_is_owner: bool,
    config: &RedeemConfig,
    total_liquidity: i128,
    amount: i128,
) -> (received: Result<i128, RedeemError>)
    ensures
        match redeem_check(*bond, caller_is_owner, *config, total_liquidity, amount) {
            Ok(()) => received == Ok::<i128, RedeemError>(amount),
            Err(e) => received == Err::<i128, RedeemError>(e),
        },
        received is Ok <==> {
            &&& caller_is_owner
            &&& 0 < amount <= config.max_redeem_amount
            &&& i128::MIN <= bond.bonded_amount - bond.slashed_amount <= i128::MAX
            &&& amount <= bond.bonded_amount - bond.slashed_amount
            &&& amount <= total_liquidity - config.min_liquidity_reserve
        },
        received matches Ok(net) ==> net == amount,
        !caller_is_owner ==> received == Err::<i128, RedeemError>(RedeemError::NotBondOwner),
        caller_is_owner && amount <= 0 ==> received == Err::<i128, RedeemError>(RedeemError::NonPositiveAmount),
        caller_is_owner && 0 < amount && amount > config.max_redeem_amount ==> received
            == Err::<i128, RedeemError>(RedeemError::ExceedsMaximum),
        caller_is_owner && 0 < amount <= config.max_redeem_amount && !(i128::MIN
            <= bond.bonded_amount - bond.slashed_amount <= i128::MAX) ==> received
            == Err::<i128, RedeemError>(RedeemError::SlashedExceedsBonded),
        caller_is_owner && 0 < amount <= config.max_redeem_amount && i128::MIN
            <= bond.bonded_amount - bond.slashed_amount <= i128::MAX && amount
            > bond.bonded_amount - bond.slashed_amount ==> received
            == Err::<i128, RedeemError>(RedeemError::InsufficientBalance),
        caller_is_owner && 0 < amount <= config.max_redeem_amount && i128::MIN
            <= bond.bonded_amount - bond.slashed_amount <= i128::MAX && amount
            <= bond.bonded_amount - bond.slashed_amount && amount > total_liquidity
            - config.min_liquidity_reserve ==> received == Err::<i128, RedeemError>(RedeemError::InsufficientLiquidity),
{
    match check_redeem(bond, caller_is_owner, config, total_liquidity, amount) {
        Ok(()) => Ok(amount),
        Err(e) => Err(e),
    }
}

/// Law (pre-burn validation): a redemption settles, and its check passes,
/// exactly when the caller owns the bond and the amount is positive, within
/// the per-transaction maximum, within the redeemable balance `bonded -
/// slashed` (which must lie in the `i128` range) and within the liquidity
/// above the reserve, `total - reserve`.
pub proof fn lemma_settles_only_when_validated(
    bond: BondBalances,
    caller_is_owner: bool,
    config: RedeemConfig,
    total_liquidity: i128,
    amount: i128,
)
    ensures
        redeem_outcome(bond, caller_is_owner, config, total_liquidity, amount) is Ok <==> {
            &&& caller_is_owner
            &&& 0 < amount <= config.max_redeem_amount
            &&& i128::MIN <= bond.bonded_amount - bond.slashed_amount <= i128::MAX
            &&& amount <= bond.bonded_amount - bond.slashed_amount
            &&& amount <= total_liquidity - config.min_liquidity_reserve
        },
        redeem_check(bond, caller_is_owner, config, total_liquidity, amount) is Ok <==> {
            &&& caller_is_owner
            &&& 0 < amount <= config.max_redeem_amount
            &&& i128::MIN <= bond.bonded_amount - bond.slashed_amount <= i128::MAX
            &&& amount <= bond.bonded_amount - bond.slashed_amount
            &&& amount <= total_liquidity - config.min_liquidity_reserve
        },
{
}

/// Law (refusal reasons): a refused redemption reports the first failed
/// condition, in the order ownership, positive amount, per-transaction
/// maximum, `bonded - slashed` within the `i128` range, amount within
/// `bonded - slashed`, amount within `total - reserve`.
pub proof fn lemma_refusal_reasons(
    bond: BondBalances,
    caller_is_owner: bool,
    config: RedeemConfig,
    total_liquidity: i128,
    amount: i128,
)
    ensures
        !caller_is_owner ==> redeem_outcome(bond, caller_is_owner, config, total_liquidity, amount) == Err::<RedeemSettlement, RedeemError>(RedeemError::NotBondOwner),
        caller_is_owner && amount <= 0 ==> redeem_outcome(bond, caller_is_owner, config, total_liquidity, amount) == Err::<RedeemSettlement, RedeemError>(RedeemError::NonPositiveAmount),
        caller_is_owner && 0 < amount && amount > config.max_redeem_amount ==> redeem_outcome(bond, caller_is_owner, config, total_liquidity, amount)
            == Err::<RedeemSettlement, RedeemError>(RedeemError::ExceedsMaximum),
        caller_is_owner && 0 < amount <= config.max_redeem_amount && !(i128::MIN
            <= bond.bonded_amount - bond.slashed_amount <= i128::MAX) ==> redeem_outcome(bond, caller_is_owner, config, total_liquidity, amount)
            == Err::<RedeemSettlement, RedeemError>(RedeemError::SlashedExceedsBonded),
        caller_is_owner && 0 < amount <= config.max_redeem_amount && i128::MIN
            <= bond.bonded_amount - bond.slashed_amount <= i128::MAX && amount
            > bond.bonded_amount - bond.slashed_amount ==> redeem_outcome(bond, caller_is_owner, config, total_liquidity, amount)
            == Err::<RedeemSettlement, RedeemError>(RedeemError::InsufficientBalance),
        caller_is_owner && 0 < amount <= config.max_redeem_amount && i128::MIN
            <= bond.bonded_amount - bond.slashed_amount <= i128::MAX && amount
            <= bond.bonded_amount - bond.slashed_amount && amount > total_liquidity
            - config.min_liquidity_reserve ==> redeem_outcome(bond, caller_is_owner, config, total_liquidity, amount) == Err::<RedeemSettlement, RedeemError>(RedeemError::InsufficientLiquidity),
{
}

/// Law (coherent accounting): a settled redemption takes the same amount off
/// the bonded position and off the total liquidity, leaves the slashed
/// amount alone, and keeps the slashed amount at or below the bonded amount.
pub proof fn lemma_settlement_accounting(
    bond: BondBalances,
    caller_is_owner: bool,
    config: RedeemConfig,
    total_liquidity: i128,
    amount: i128,
)
    ensures
        redeem_outcome(bond, caller_is_owner, config, total_liquidity, amount) matches Ok(
            settled,
        ) ==> {
            &&& bond.bonded_amount - settled.bond.bonded_amount == amount
            &&& total_liquidity - settled.total_liquidity == amount
            &&& amount > 0
            &&& settled.bond.slashed_amount == bond.slashed_amount
            &&& settled.bond.slashed_amount <= settled.bond.bonded_amount
        },
{
}

/// Law: available liquidity is never negative; it is zero when the balance
/// does not exceed the reserve, and exactly the excess when that fits.
pub proof fn lemma_available_liquidity_bounds(total_balance: i128, min_reserve: i128)
    ensures
        available_liquidity_of(total_balance as int, min_reserve as int) >= 0,
        total_balance <= min_reserve ==> available_liquidity_of(
            total_balance as int,
            min_reserve as int,
        ) == 0,
        0 <= total_balance - min_reserve <= i128::MAX ==> available_liquidity_of(
            total_balance as int,
            min_reserve as int,
        ) == total_balance - min_reserve,
{
}

/// Law: for every caller, checking a redemption (as a simulation does)
/// reaches the same verdict as settling it: both succeed, or both fail with
/// the same error.
pub proof fn lemma_check_agrees_with_settlement(
    bond: BondBalances,
    caller_is_owner: bool,
    config: RedeemConfig,
    total_liquidity: i128,
    amount: i128,
)
    ensures
        redeem_check(bond, caller_is_owner, config, total_liquidity, amount) is Ok
            <==> redeem_outcome(bond, caller_is_owner, config, total_liquidity, amount) is Ok,
        redeem_check(bond, caller_is_owner, config, total_liquidity, amount) matches Err(e)
            ==> redeem_outcome(bond, caller_is_owner, config, total_liquidity, amount) == Err::<
            RedeemSettlement,
            RedeemError,
        >(e),
{
}

/// Law: two successive redemptions by the owner that both settle leave the
/// same state as one redemption of their sum, whenever the sum is within the
/// per-transaction maximum.
pub proof fn lemma_successive_redemptions_combine(
    bond: BondBalances,
    config: RedeemConfig,
    total_liquidity: i128,
    first: i128,
    second: i128,
)
    requires
        redeem_outcome(bond, true, config, total_liquidity, first) is Ok,
        redeem_outcome(
            redeem_outcome(bond, true, config, total_liquidity, first)->Ok_0.bond,
            true,
            config,
            redeem_outcome(bond, true, config, total_liquidity, first)->Ok_0.total_liquidity,
            second,
        ) is Ok,
        first + second <= config.max_redeem_amount,
    ensures
        redeem_outcome(bond, true, config, total_liquidity, (first + second) as i128)
            == redeem_outcome(
            redeem_outcome(bond, true, config, total_liquidity, first)->Ok_0.bond,
            true,
            config,
            redeem_outcome(bond, true, config, total_liquidity, first)->Ok_0.total_liquidity,
            second,
        ),
{
}

} // verus!
