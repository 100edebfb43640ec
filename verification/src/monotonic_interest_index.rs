//! Monotonic interest index.
//!
//! The index is a fixed-point `i128` scaled by `10^18`. It compounds every
//! second at the given rate in basis points. An update never moves it
//! backwards: each second's increment is rounded up and is at least one
//! unit, and the index saturates at `i128::MAX`.

use vstd::prelude::*;
use vstd::arithmetic::div_mod::*;
use vstd::arithmetic::mul::*;

verus! {

/// Fixed-point scaling factor for index precision (18 decimal places).
pub const INDEX_SCALE: i128 = 1_000_000_000_000_000_000;

/// Storage key for the current monotonic interest index.
#[derive(Clone)]
pub struct MonotonicIndexKey;

/// Smallest increment applied when time has passed at a positive rate.
const MIN_INDEX_INCREMENT: i128 = 1;

/// Basis points per unit rate.
const BPS_DENOMINATOR: i128 = 10_000;

/// `ceil(n / d)` for `d != 0`, rounding toward positive infinity.
pub open spec fn ceil_div(n: int, d: int) -> int {
    if d > 0 {
        -((-n) / d)
    } else {
        -(n / (-d))
    }
}

/// Dividing by a negative divisor negates the quotient by `-d`.
proof fn lemma_div_by_negative(x: int, d: int)
    requires
        d < 0,
    ensures
        x / d == -(x / (-d)),
{
    let q = x / (-d);
    let r = x % (-d);
    let q2 = x / d;
    let r2 = x % d;
    lemma_fundamental_div_mod(x, -d);
    lemma_mod_bound(x, -d);
    // Euclidean division by `d`: `x == d * q2 + r2` with `0 <= r2 < -d`.
    lemma_fundamental_div_mod(x, d);
    assert(0 <= r2 < -d) by (nonlinear_arith)
        requires
            d < 0,
            r2 == x % d,
    ;
    let k = q2 + q;
    assert(d * k == r - r2) by {
        lemma_mul_is_distributive_add(d, q2, q);
        lemma_mul_unary_negation(d, q);
        lemma_mul_is_commutative(-d, q);
        lemma_mul_is_commutative(d, q);
    }
    if k >= 1 {
        assert(d * k <= d) by (nonlinear_arith)
            requires
                k >= 1,
                d < 0,
        ;
    } else if k <= -1 {
        assert(d * k >= -d) by (nonlinear_arith)
            requires
                k <= -1,
                d < 0,
        ;
    }
}

/// The ceiling of a non-negative quotient is its floor, plus one when the
/// division leaves a remainder.
proof fn lemma_ceil_from_floor(n: int, d: int)
    requires
        n >= 0,
        d > 0,
    ensures
        ceil_div(n, d) == n / d + if n % d != 0 {
            1int
        } else {
            0int
        },
{
    let q = n / d;
    let r = n % d;
    lemma_fundamental_div_mod(n, d);
    lemma_mod_bound(n, d);
    if r == 0 {
        assert(-n == (-q) * d + 0) by (nonlinear_arith)
            requires
                n == d * q + r,
                r == 0,
        ;
        lemma_fundamental_div_mod_converse(-n, d, -q, 0);
    } else {
        assert(-n == (-q - 1) * d + (d - r)) by (nonlinear_arith)
            requires
                n == d * q + r,
        ;
        lemma_fundamental_div_mod_converse(-n, d, -q - 1, d - r);
    }
}

/// The remainder by a negative divisor equals the remainder by its negation.
proof fn lemma_mod_by_negative(x: int, d: int)
    requires
        d < 0,
    ensures
        x % d == x % (-d),
{
    lemma_div_by_negative(x, d);
    lemma_fundamental_div_mod(x, d);
    lemma_fundamental_div_mod(x, -d);
    lemma_mul_unary_negation(d, x / (-d));
    lemma_mul_unary_negation(-d, x / (-d));
}

/// The truncated quotient that `numerator / denominator` computes on `i128`.
pub open spec fn truncated_quotient(n: int, d: int) -> int {
    if n >= 0 {
        n / d
    } else {
        -((-n) / d)
    }
}

/// The remainder that `numerator % denominator` computes on `i128`.
pub open spec fn truncated_remainder(n: int, d: int) -> int {
    if n >= 0 {
        n % d
    } else {
        -((-n) % d)
    }
}

/// For operands in range (other than `i128::MIN / -1`), the truncated
/// quotient and remainder fit in `i128`, and the ceiling is the truncated
/// quotient, plus one when the exact quotient is positive and the division
/// leaves a remainder; that sum fits in `i128` as well.
proof fn lemma_ceiling_from_truncation(n: int, d: int)
    requires
        d != 0,
        i128::MIN <= n <= i128::MAX,
        i128::MIN <= d <= i128::MAX,
        !(n == i128::MIN && d == -1),
    ensures
        i128::MIN <= truncated_quotient(n, d) <= i128::MAX,
        i128::MIN <= truncated_remainder(n, d) <= i128::MAX,
        ceil_div(n, d) == if truncated_remainder(n, d) != 0 && ((n > 0) == (d > 0)) {
            truncated_quotient(n, d) + 1
        } else {
            truncated_quotient(n, d)
        },
        truncated_remainder(n, d) != 0 && ((n > 0) == (d > 0)) ==> truncated_quotient(n, d)
            + 1 <= i128::MAX,
{
    if n >= 0 && d > 0 {
        let q = n / d;
        let r = n % d;
        lemma_fundamental_div_mod(n, d);
        lemma_mod_bound(n, d);
        lemma_div_pos_is_pos(n, d);
        lemma_ceil_from_floor(n, d);
        assert(q <= n) by (nonlinear_arith)
            requires
                n == d * q + r,
                q >= 0,
                r >= 0,
                d >= 1,
        ;
        if r != 0 {
            assert(q + 1 <= n) by (nonlinear_arith)
                requires
                    n == d * q + r,
                    q >= 0,
                    r >= 1,
                    d >= 1,
            ;
        }
        if n == 0 {
            lemma_div_basics(d);
        }
    } else if n < 0 && d > 0 {
        let big_n = -n;
        lemma_div_pos_is_pos(big_n, d);
        lemma_div_nonincreasing(big_n, d);
        lemma_mod_bound(big_n, d);
    } else if n >= 0 && d < 0 {
        lemma_div_by_negative(n, d);
        lemma_div_pos_is_pos(n, -d);
        lemma_div_nonincreasing(n, -d);
        lemma_mod_by_negative(n, d);
        lemma_mod_bound(n, -d);
    } else {
        // Both negative: the quotient is the positive `(-n) / (-d)`.
        let big_n = -n;
        let big_d = -d;
        let q = big_n / big_d;
        let r = big_n % big_d;
        lemma_div_by_negative(big_n, d);
        lemma_mod_by_negative(big_n, d);
        lemma_fundamental_div_mod(big_n, big_d);
        lemma_mod_bound(big_n, big_d);
        lemma_div_pos_is_pos(big_n, big_d);
        lemma_ceil_from_floor(big_n, big_d);
        assert(ceil_div(n, d) == ceil_div(big_n, big_d));
        if big_d == 1 {
            lemma_fundamental_div_mod_converse(big_n, big_d, big_n, 0);
        } else {
            assert(2 * q <= big_n) by (nonlinear_arith)
                requires
                    big_n == big_d * q + r,
                    q >= 0,
                    r >= 0,
                    big_d >= 2,
            ;
        }
    }
}

/// Perform ceiling division: `ceil(numerator / denominator)`.
///
/// Always rounds toward positive infinity. The quotient is computed by
/// truncating division and rounded up when the exact quotient is positive
/// and the division leaves a remainder. The inputs exclude a zero
/// denominator and `i128::MIN / -1`, whose quotient does not fit in `i128`.
pub fn ceiling_division_i128(numerator: i128, denominator: i128) -> (quotient: i128)
    requires
        denominator != 0,
        !(numerator == i128::MIN && denominator == -1),
    ensures
        quotient == ceil_div(numerator as int, denominator as int),
{
    proof {
        lemma_ceiling_from_truncation(numerator as int, denominator as int);
    }
    let truncated = numerator / denominator;
    let remainder = numerator % denominator;
    // A positive exact quotient is rounded down by truncation; round it
    // back up when something is left over.
    if remainder != 0 && ((numerator > 0) == (denominator > 0)) {
        truncated + 1
    } else {
        truncated
    }
}

/// Ceiling division by a positive divisor is non-decreasing in the numerator.
proof fn lemma_ceil_div_is_ordered(x: int, y: int, d: int)
    requires
        x <= y,
        d > 0,
    ensures
        ceil_div(x, d) <= ceil_div(y, d),
{
    lemma_div_is_ordered(-y, -x, d);
}

/// The sign of a ceiling quotient by a positive divisor follows the numerator.
proof fn lemma_ceil_div_sign(x: int, d: int)
    requires
        d > 0,
    ensures
        x > 0 ==> ceil_div(x, d) >= 1,
        x <= 0 ==> ceil_div(x, d) <= 0,
        x >= 0 ==> ceil_div(x, d) >= 0,
{
    if x > 0 {
        lemma_ceil_from_floor(x, d);
        lemma_div_pos_is_pos(x, d);
        lemma_fundamental_div_mod(x, d);
        assert(x / d == 0 ==> x % d == x) by (nonlinear_arith)
            requires
                x == d * (x / d) + x % d,
        ;
    } else {
        lemma_div_pos_is_pos(-x, d);
    }
    if x == 0 {
        lemma_div_basics(d);
    }
}

/// One second of accrual at `rate` basis points per second: the index grows
/// by `index * rate / 10_000`, rounded up and at least one unit, saturating
/// at `i128::MAX`; a zero index does not accrue.
pub open spec fn accrual_step(index: int, rate: int) -> int {
    if index == 0 {
        0
    } else {
        let increment = ceil_div(index * rate, 10_000);
        let adjusted = if increment < 1 {
            1
        } else {
            increment
        };
        if index + adjusted > i128::MAX {
            i128::MAX as int
        } else {
            index + adjusted
        }
    }
}

/// The index after `seconds` successive one-second accruals.
pub open spec fn compounded_index(index: int, rate: int, seconds: nat) -> int
    decreases seconds,
{
    if seconds == 0 {
        index
    } else {
        compounded_index(accrual_step(index, rate), rate, (seconds - 1) as nat)
    }
}

/// The index after `elapsed` seconds at `rate` basis points per second,
/// compounded every second. A zero rate leaves the index unchanged.
pub open spec fn accrued_index(previous: int, elapsed: int, rate: int) -> int {
    if rate == 0 {
        previous
    } else {
        compounded_index(previous, rate, elapsed as nat)
    }
}

/// A whole number of divisors passes through a ceiling quotient unchanged.
proof fn lemma_ceil_div_shift(k: int, x: int, d: int)
    requires
        d > 0,
    ensures
        ceil_div(d * k + x, d) == k + ceil_div(x, d),
{
    let q = (-x) / d;
    let r = (-x) % d;
    lemma_fundamental_div_mod(-x, d);
    lemma_mod_bound(-x, d);
    assert(-(d * k + x) == (q - k) * d + r) by (nonlinear_arith)
        requires
            -x == d * q + r,
    ;
    lemma_fundamental_div_mod_converse(-(d * k + x), d, q - k, r);
}

/// Splits the rounded-up increment `ceil(p * m / 10_000)` into three parts that
/// each fit in `i128` arithmetic when `p` and `m` do.
proof fn lemma_increment_split(p: int, m: int)
    requires
        p >= 0,
        m >= 0,
    ensures
        ceil_div(p * m, 10_000) == p * (m / 10_000) + (p / 10_000) * (m % 10_000) + ceil_div(
            (p % 10_000) * (m % 10_000),
            10_000,
        ),
{
    let whole = m / 10_000;
    let part = m % 10_000;
    let high = p / 10_000;
    let low = p % 10_000;
    lemma_fundamental_div_mod(m, 10_000);
    lemma_fundamental_div_mod(p, 10_000);
    let k = p * whole + high * part;
    assert(p * m == 10_000 * k + low * part) by (nonlinear_arith)
        requires
            m == 10_000 * whole + part,
            p == 10_000 * high + low,
            k == p * whole + high * part,
    ;
    lemma_ceil_div_shift(k, low * part, 10_000);
}

/// One second of accrual on a positive index.
///
/// With rate = whole * 10_000 + part and index = high * 10_000 + low,
/// ceil(index * rate / 10_000) = index * whole + high * part + ceil(low * part / 10_000),
/// where every term is non-negative, so a partial sum leaving `i128` means the
/// whole increment does too, and the new index saturates.
fn accrue_one_second(index: i128, rate: u32) -> (next: i128)
    requires
        index > 0,
        rate > 0,
    ensures
        next == accrual_step(index as int, rate as int),
{
    let rate_wide = rate as i128;
    let whole_bps = rate_wide / BPS_DENOMINATOR;
    let part_bps = rate_wide % BPS_DENOMINATOR;
    let high = index / BPS_DENOMINATOR;
    let low = index % BPS_DENOMINATOR;
    let ghost exact = (index as int) * (rate as int);
    proof {
        lemma_increment_split(index as int, rate as int);
        lemma_div_pos_is_pos(rate as int, 10_000);
        lemma_div_pos_is_pos(index as int, 10_000);
        lemma_mod_bound(rate as int, 10_000);
        lemma_mod_bound(index as int, 10_000);
        lemma_fundamental_div_mod(index as int, 10_000);
        assert(0 <= low * part_bps <= 9999 * 9999) by (nonlinear_arith)
            requires
                0 <= low < 10_000,
                0 <= part_bps < 10_000,
        ;
        assert(0 <= high * part_bps <= i128::MAX) by (nonlinear_arith)
            requires
                0 <= high,
                index == 10_000 * high + low,
                0 <= low,
                index <= i128::MAX,
                0 <= part_bps < 10_000,
        ;
        lemma_ceil_div_sign(low * part_bps, 10_000);
        lemma_ceil_div_sign(exact, 10_000);
        assert(exact > 0) by (nonlinear_arith)
            requires
                index > 0,
                rate > 0,
                exact == (index as int) * (rate as int),
        ;
        assert(index * whole_bps >= 0) by (nonlinear_arith)
            requires
                index > 0,
                whole_bps >= 0,
        ;
    }
    let tail = ceiling_division_i128(low * part_bps, BPS_DENOMINATOR);
    let increment = match index.checked_mul(whole_bps) {
        Some(scaled) => match scaled.checked_add(high * part_bps) {
            Some(partial) => partial.checked_add(tail),
            None => None,
        },
        None => None,
    };
    match increment {
        // The exact increment exceeds i128::MAX, and so does the new index.
        None => i128::MAX,
        Some(increment) => {
            // Enforce monotonic increase: at minimum increment by 1.
            let adjusted_increment = if increment < MIN_INDEX_INCREMENT {
                MIN_INDEX_INCREMENT
            } else {
                increment
            };
            match index.checked_add(adjusted_increment) {
                Some(next) => next,
                None => i128::MAX,
            }
        },
    }
}

/// What one second of accrual does at a positive rate: a negative index moves
/// up by one unit, a zero index stays zero, and a positive index moves up by
/// at least one unit unless it already stands at `i128::MAX`.
proof fn lemma_step_facts(x: int, rate: int)
    requires
        i128::MIN <= x <= i128::MAX,
        rate > 0,
    ensures
        x < 0 ==> accrual_step(x, rate) == x + 1,
        x == 0 ==> accrual_step(x, rate) == 0,
        x > 0 ==> x <= accrual_step(x, rate) <= i128::MAX,
        0 < x < i128::MAX ==> accrual_step(x, rate) >= x + 1,
        x > 0 ==> ceil_div(x * rate, 10_000) >= 1,
{
    if x < 0 {
        assert(x * rate < 0) by (nonlinear_arith)
            requires
                x < 0,
                rate > 0,
        ;
        lemma_ceil_div_sign(x * rate, 10_000);
    } else if x > 0 {
        assert(x * rate > 0) by (nonlinear_arith)
            requires
                x > 0,
                rate > 0,
        ;
        lemma_ceil_div_sign(x * rate, 10_000);
    }
}

/// One second of accrual is non-decreasing in the index.
proof fn lemma_step_monotonic_in_index(x: int, y: int, rate: int)
    requires
        i128::MIN <= x <= y <= i128::MAX,
        rate > 0,
    ensures
        accrual_step(x, rate) <= accrual_step(y, rate),
{
    lemma_step_facts(x, rate);
    lemma_step_facts(y, rate);
    if x > 0 {
        assert(x * rate <= y * rate) by (nonlinear_arith)
            requires
                0 < x <= y,
                rate > 0,
        ;
        lemma_ceil_div_is_ordered(x * rate, y * rate, 10_000);
    }
}

/// One second of accrual is non-decreasing in the rate.
proof fn lemma_step_monotonic_in_rate(x: int, rate_low: int, rate_high: int)
    requires
        i128::MIN <= x <= i128::MAX,
        0 < rate_low <= rate_high,
    ensures
        accrual_step(x, rate_low) <= accrual_step(x, rate_high),
{
    lemma_step_facts(x, rate_low);
    lemma_step_facts(x, rate_high);
    if x > 0 {
        assert(x * rate_low <= x * rate_high) by (nonlinear_arith)
            requires
                x > 0,
                rate_low <= rate_high,
        ;
        lemma_ceil_div_is_ordered(x * rate_low, x * rate_high, 10_000);
    }
}

/// Compounding stays in the `i128` range and never moves the index backwards.
proof fn lemma_compounded_bounds(x: int, rate: int, seconds: nat)
    requires
        i128::MIN <= x <= i128::MAX,
        rate > 0,
    ensures
        x <= compounded_index(x, rate, seconds) <= i128::MAX,
    decreases seconds,
{
    if seconds > 0 {
        lemma_step_facts(x, rate);
        lemma_compounded_bounds(accrual_step(x, rate), rate, (seconds - 1) as nat);
    }
}

/// A zero index stays zero.
proof fn lemma_compounded_zero(rate: int, seconds: nat)
    ensures
        compounded_index(0, rate, seconds) == 0,
    decreases seconds,
{
    if seconds > 0 {
        lemma_compounded_zero(rate, (seconds - 1) as nat);
    }
}

/// An index at `i128::MAX` stays there.
proof fn lemma_compounded_saturated(rate: int, seconds: nat)
    requires
        rate > 0,
    ensures
        compounded_index(i128::MAX as int, rate, seconds) == i128::MAX,
    decreases seconds,
{
    if seconds > 0 {
        lemma_step_facts(i128::MAX as int, rate);
        lemma_compounded_saturated(rate, (seconds - 1) as nat);
    }
}

/// A negative index moves up one unit per second until it reaches zero.
proof fn lemma_compounded_negative(x: int, rate: int, seconds: nat)
    requires
        i128::MIN <= x < 0,
        rate > 0,
    ensures
        compounded_index(x, rate, seconds) == if x + seconds >= 0 {
            0
        } else {
            x + seconds
        },
    decreases seconds,
{
    if seconds > 0 {
        lemma_step_facts(x, rate);
        if x + 1 == 0 {
            lemma_compounded_zero(rate, (seconds - 1) as nat);
        } else {
            lemma_compounded_negative(x + 1, rate, (seconds - 1) as nat);
        }
    }
}

/// Compounding is non-decreasing in the starting index.
proof fn lemma_compounded_monotonic_in_index(x: int, y: int, rate: int, seconds: nat)
    requires
        i128::MIN <= x <= y <= i128::MAX,
        rate > 0,
    ensures
        compounded_index(x, rate, seconds) <= compounded_index(y, rate, seconds),
    decreases seconds,
{
    if seconds > 0 {
        lemma_step_monotonic_in_index(x, y, rate);
        lemma_step_facts(x, rate);
        lemma_step_facts(y, rate);
        lemma_compounded_monotonic_in_index(
            accrual_step(x, rate),
            accrual_step(y, rate),
            rate,
            (seconds - 1) as nat,
        );
    }
}

/// Compounding is non-decreasing in the number of seconds.
proof fn lemma_compounded_monotonic_in_time(x: int, rate: int, shorter: nat, longer: nat)
    requires
        i128::MIN <= x <= i128::MAX,
        rate > 0,
        shorter <= longer,
    ensures
        compounded_index(x, rate, shorter) <= compounded_index(x, rate, longer),
    decreases shorter,
{
    if shorter == 0 {
        lemma_compounded_bounds(x, rate, longer);
    } else {
        lemma_step_facts(x, rate);
        lemma_compounded_monotonic_in_time(
            accrual_step(x, rate),
            rate,
            (shorter - 1) as nat,
            (longer - 1) as nat,
        );
    }
}

/// Compounding is non-decreasing in the rate.
proof fn lemma_compounded_monotonic_in_rate(x: int, rate_low: int, rate_high: int, seconds: nat)
    requires
        i128::MIN <= x <= i128::MAX,
        0 < rate_low <= rate_high,
    ensures
        compounded_index(x, rate_low, seconds) <= compounded_index(x, rate_high, seconds),
    decreases seconds,
{
    if seconds > 0 {
        let after_low = accrual_step(x, rate_low);
        let after_high = accrual_step(x, rate_high);
        lemma_step_facts(x, rate_low);
        lemma_step_facts(x, rate_high);
        lemma_step_monotonic_in_rate(x, rate_low, rate_high);
        lemma_compounded_monotonic_in_rate(after_low, rate_low, rate_high, (seconds - 1) as nat);
        lemma_compounded_monotonic_in_index(after_low, after_high, rate_high, (seconds - 1) as nat);
    }
}

/// Compounding over `first + second` seconds is compounding over `first`
/// seconds, then over `second` more.
proof fn lemma_compounded_split(x: int, rate: int, first: nat, second: nat)
    ensures
        compounded_index(x, rate, first + second) == compounded_index(
            compounded_index(x, rate, first),
            rate,
            second,
        ),
    decreases first,
{
    if first > 0 {
        lemma_compounded_split(accrual_step(x, rate), rate, (first - 1) as nat, second);
        assert((first + second - 1) as nat == ((first - 1) as nat + second) as nat);
    }
}

/// Calculate the new interest index based on elapsed time and rate per second.
///
/// * `previous_index` - the index from the last update (in `10^18` units)
/// * `elapsed_seconds` - time elapsed since the last update
/// * `rate_per_second_bps` - interest rate per second in basis points
///
/// Returns `accrued_index(previous_index, elapsed_seconds, rate_per_second_bps)`:
/// every elapsed second the index grows by `rate / 10_000` of itself, rounded
/// up and at least one unit, saturating at `i128::MAX`. A zero elapsed time, a
/// zero rate or a zero index leave the index unchanged, and a negative index
/// moves up one unit per second until it reaches zero.
pub fn calculate_monotonic_index(
    previous_index: i128,
    elapsed_seconds: u64,
    rate_per_second_bps: u32,
) -> (new_index: i128)
    ensures
        new_index == accrued_index(
            previous_index as int,
            elapsed_seconds as int,
            rate_per_second_bps as int,
        ),
        new_index >= previous_index,
        elapsed_seconds == 0 || rate_per_second_bps == 0 || previous_index == 0 ==> new_index
            == previous_index,
        previous_index < 0 && elapsed_seconds > 0 && rate_per_second_bps > 0 ==> new_index == if previous_index
            + elapsed_seconds >= 0 {
            0
        } else {
            previous_index + elapsed_seconds
        },
        previous_index > 0 && elapsed_seconds == 1 && rate_per_second_bps > 0 ==> new_index == if previous_index
            + (previous_index * rate_per_second_bps + 9_999) / 10_000 > i128::MAX {
            i128::MAX as int
        } else {
            previous_index + (previous_index * rate_per_second_bps + 9_999) / 10_000
        },
{
    // Edge case: no time passed, no rate, or nothing to accrue on.
    if elapsed_seconds == 0 || rate_per_second_bps == 0 || previous_index == 0 {
        proof {
            if previous_index == 0 {
                lemma_compounded_zero(rate_per_second_bps as int, elapsed_seconds as nat);
            }
        }
        return previous_index;
    }
    let ghost rate = rate_per_second_bps as int;
    if previous_index < 0 {
        // A negative index has a non-positive rounded-up increment, so the
        // minimum increment applies every second until the index reaches zero.
        proof {
            lemma_compounded_negative(previous_index as int, rate, elapsed_seconds as nat);
        }
        let elapsed = elapsed_seconds as i128;
        if previous_index + elapsed >= 0 {
            return 0;
        }
        return previous_index + elapsed;
    }
    let mut index = previous_index;
    let mut remaining = elapsed_seconds;
    // A positive index grows by at least one unit a second, and geometrically
    // once it exceeds 10_000, so it saturates long before a large
    // `elapsed_seconds` runs out.
    while remaining > 0 && index < i128::MAX
        invariant
            0 < previous_index <= index <= i128::MAX,
            rate == rate_per_second_bps,
            rate > 0,
            compounded_index(previous_index as int, rate, elapsed_seconds as nat)
                == compounded_index(index as int, rate, remaining as nat),
        decreases remaining,
    {
        proof {
            lemma_step_facts(index as int, rate);
        }
        index = accrue_one_second(index, rate_per_second_bps);
        remaining = remaining - 1;
    }
    proof {
        if remaining > 0 {
            lemma_compounded_saturated(rate, remaining as nat);
        }
        if elapsed_seconds == 1 {
            lemma_accrual_one_second(previous_index, rate_per_second_bps);
        }
    }
    index
}

/// For a non-negative numerator, the ceiling quotient is the floor quotient
/// of the numerator raised by `d - 1`.
proof fn lemma_ceil_as_raised_floor(n: int, d: int)
    requires
        n >= 0,
        d > 0,
    ensures
        ceil_div(n, d) == (n + d - 1) / d,
{
    let q = n / d;
    let r = n % d;
    lemma_ceil_from_floor(n, d);
    lemma_fundamental_div_mod(n, d);
    lemma_mod_bound(n, d);
    if r == 0 {
        assert(n + d - 1 == q * d + (d - 1)) by (nonlinear_arith)
            requires
                n == d * q + r,
                r == 0,
        ;
        lemma_fundamental_div_mod_converse(n + d - 1, d, q, d - 1);
    } else {
        assert(n + d - 1 == (q + 1) * d + (r - 1)) by (nonlinear_arith)
            requires
                n == d * q + r,
        ;
        lemma_fundamental_div_mod_converse(n + d - 1, d, q + 1, r - 1);
    }
}

/// Law (one second of accrual): a positive index at a positive rate grows in
/// one second by `previous * rate / 10_000` rounded up, that is by
/// `(previous * rate + 9_999) / 10_000` (at least one unit, since the product
/// is positive), and saturates at `i128::MAX`. With the compounding law this
/// fixes the index after any elapsed time.
pub proof fn lemma_accrual_one_second(previous: i128, rate: u32)
    requires
        previous > 0,
        rate > 0,
    ensures
        (previous * rate + 9_999) / 10_000 >= 1,
        accrued_index(previous as int, 1, rate as int) == if previous + (previous * rate + 9_999)
            / 10_000 > i128::MAX {
            i128::MAX as int
        } else {
            previous + (previous * rate + 9_999) / 10_000
        },
{
    let p = previous as int;
    let r = rate as int;
    lemma_step_facts(p, r);
    assert(p * r >= 0) by (nonlinear_arith)
        requires
            p > 0,
            r > 0,
    ;
    lemma_ceil_as_raised_floor(p * r, 10_000);
    assert(compounded_index(p, r, 1) == compounded_index(accrual_step(p, r), r, 0));
}

/// Law: an update never moves the index backwards, and the result stays in
/// the `i128` range.
pub proof fn lemma_accrual_never_decreases(previous: i128, elapsed: u64, rate: u32)
    ensures
        previous <= accrued_index(previous as int, elapsed as int, rate as int) <= i128::MAX,
{
    if rate != 0 {
        lemma_compounded_bounds(previous as int, rate as int, elapsed as nat);
    }
}

/// Law: when time has passed at a positive rate, a positive index strictly
/// increases (unless it already stands at `i128::MAX`).
pub proof fn lemma_accrual_strictly_increases(previous: i128, elapsed: u64, rate: u32)
    requires
        elapsed > 0,
        rate > 0,
        0 < previous < i128::MAX,
    ensures
        accrued_index(previous as int, elapsed as int, rate as int) > previous,
{
    lemma_accrual_minimum_increment(previous, elapsed, rate);
}

/// Law (minimum increment): when time has passed at a positive rate, a
/// non-zero index moves up by at least one unit (up to `i128::MAX`); a
/// negative index moves up by exactly one unit per second until it reaches
/// zero.
pub proof fn lemma_accrual_minimum_increment(previous: i128, elapsed: u64, rate: u32)
    requires
        elapsed > 0,
        rate > 0,
        previous != 0,
        previous < i128::MAX,
    ensures
        accrued_index(previous as int, elapsed as int, rate as int) >= previous + 1,
        previous < 0 ==> accrued_index(previous as int, elapsed as int, rate as int) == if previous
            + elapsed >= 0 {
            0
        } else {
            previous + elapsed
        },
{
    let p = previous as int;
    let r = rate as int;
    if previous < 0 {
        lemma_compounded_negative(p, r, elapsed as nat);
    } else {
        lemma_step_facts(p, r);
        lemma_compounded_monotonic_in_time(p, r, 1, elapsed as nat);
        assert(compounded_index(p, r, 1) == compounded_index(accrual_step(p, r), r, 0));
    }
}

/// Law: with zero elapsed time or a zero rate the index is unchanged, and a
/// zero index stays zero.
pub proof fn lemma_accrual_unchanged_edge_cases(previous: i128, elapsed: u64, rate: u32)
    ensures
        elapsed == 0 ==> accrued_index(previous as int, elapsed as int, rate as int) == previous,
        rate == 0 ==> accrued_index(previous as int, elapsed as int, rate as int) == previous,
        previous == 0 ==> accrued_index(previous as int, elapsed as int, rate as int) == 0,
{
    lemma_compounded_zero(rate as int, elapsed as nat);
}

/// Law (compounding): an update over `first + second` seconds gives the same
/// index as an update over `first` seconds followed by one over `second`
/// seconds at the same rate.
pub proof fn lemma_accrual_compounds(previous: i128, first: u64, second: u64, rate: u32)
    ensures
        accrued_index(previous as int, first + second, rate as int) == accrued_index(
            accrued_index(previous as int, first as int, rate as int),
            second as int,
            rate as int,
        ),
{
    lemma_compounded_split(previous as int, rate as int, first as nat, second as nat);
}

/// Law: for a fixed index and rate, the result is non-decreasing in the
/// elapsed time.
pub proof fn lemma_accrual_monotonic_in_elapsed(
    previous: i128,
    elapsed_before: u64,
    elapsed_after: u64,
    rate: u32,
)
    requires
        elapsed_before <= elapsed_after,
    ensures
        accrued_index(previous as int, elapsed_before as int, rate as int) <= accrued_index(
            previous as int,
            elapsed_after as int,
            rate as int,
        ),
{
    if rate != 0 {
        lemma_compounded_monotonic_in_time(
            previous as int,
            rate as int,
            elapsed_before as nat,
            elapsed_after as nat,
        );
    }
}

/// Law: for a fixed index and elapsed time, the result is non-decreasing in
/// the rate.
pub proof fn lemma_accrual_monotonic_in_rate(
    previous: i128,
    elapsed: u64,
    rate_before: u32,
    rate_after: u32,
)
    requires
        rate_before <= rate_after,
    ensures
        accrued_index(previous as int, elapsed as int, rate_before as int) <= accrued_index(
            previous as int,
            elapsed as int,
            rate_after as int,
        ),
{
    if rate_before == 0 {
        lemma_accrual_never_decreases(previous, elapsed, rate_after);
    } else {
        lemma_compounded_monotonic_in_rate(
            previous as int,
            rate_before as int,
            rate_after as int,
            elapsed as nat,
        );
    }
}

/// Law: for a fixed elapsed time and rate, the result is non-decreasing in
/// the starting index.
pub proof fn lemma_accrual_monotonic_in_base(
    previous_before: i128,
    previous_after: i128,
    elapsed: u64,
    rate: u32,
)
    requires
        previous_before <= previous_after,
    ensures
        accrued_index(previous_before as int, elapsed as int, rate as int) <= accrued_index(
            previous_after as int,
            elapsed as int,
            rate as int,
        ),
{
    if rate != 0 {
        lemma_compounded_monotonic_in_index(
            previous_before as int,
            previous_after as int,
            rate as int,
            elapsed as nat,
        );
    }
}

/// The index after applying a sequence of `(elapsed_seconds, rate_bps)`
/// updates in order, starting from `start`.
pub open spec fn index_after_updates(start: int, updates: Seq<(u64, u32)>) -> int
    decreases updates.len(),
{
    if updates.len() == 0 {
        start
    } else {
        let last = updates.last();
        accrued_index(index_after_updates(start, updates.drop_last()), last.0 as int, last.1 as int)
    }
}

/// Every prefix of a sequence of updates leaves the index in the `i128` range
/// and at or above the starting index, and each further update does not move
/// it backwards.
proof fn lemma_update_prefix_step(start: i128, updates: Seq<(u64, u32)>, k: int)
    requires
        0 <= k < updates.len(),
    ensures
        start <= index_after_updates(start as int, updates.take(k)) <= index_after_updates(
            start as int,
            updates.take(k + 1),
        ) <= i128::MAX,
    decreases k,
{
    let before = index_after_updates(start as int, updates.take(k));
    if k == 0 {
        assert(updates.take(0).len() == 0);
    } else {
        lemma_update_prefix_step(start, updates, k - 1);
        assert(updates.take(k).drop_last() =~= updates.take(k - 1));
    }
    assert(updates.take(k + 1).drop_last() =~= updates.take(k));
    let step = updates[k];
    assert(updates.take(k + 1).last() == step);
    lemma_accrual_never_decreases(before as i128, step.0, step.1);
}

/// Law: applying any sequence of updates never moves the index backwards:
/// every later point in the sequence stands at or above every earlier one,
/// and all stand at or above the starting index.
pub proof fn lemma_updates_never_decrease(start: i128, updates: Seq<(u64, u32)>)
    ensures
        forall|i: int, j: int|
            0 <= i <= j <= updates.len() ==> start <= index_after_updates(
                start as int,
                #[trigger] updates.take(i),
            ) <= index_after_updates(start as int, #[trigger] updates.take(j)) <= i128::MAX,
{
    assert forall|i: int, j: int| 0 <= i <= j <= updates.len() implies start
        <= index_after_updates(start as int, #[trigger] updates.take(i)) <= index_after_updates(
        start as int,
        #[trigger] updates.take(j),
    ) <= i128::MAX by {
        lemma_prefix_chain(start, updates, i, j);
    }
}

/// Ordering of two prefixes of a sequence of updates.
proof fn lemma_prefix_chain(start: i128, updates: Seq<(u64, u32)>, i: int, j: int)
    requires
        0 <= i <= j <= updates.len(),
    ensures
        start <= index_after_updates(start as int, updates.take(i)) <= index_after_updates(
            start as int,
            updates.take(j),
        ) <= i128::MAX,
    decreases j - i,
{
    if i == j {
        if i < updates.len() {
            lemma_update_prefix_step(start, updates, i);
        } else if i > 0 {
            lemma_update_prefix_step(start, updates, i - 1);
        } else {
            assert(updates.take(0).len() == 0);
        }
    } else {
        lemma_prefix_chain(start, updates, i, j - 1);
        lemma_update_prefix_step(start, updates, j - 1);
    }
}

/// Advance a stored index: returns `(previous, new)`, where `previous` is the
/// stored index (zero when none was stored) and `new` is that index after
/// `elapsed_seconds` at `rate_per_second_bps`.
pub fn advance_index(
    stored: Option<i128>,
    elapsed_seconds: u64,
    rate_per_second_bps: u32,
) -> (indices: (i128, i128))
    ensures
        indices.0 == match stored {
            Some(index) => index,
            None => 0,
        },
        indices.1 == accrued_index(
            indices.0 as int,
            elapsed_seconds as int,
            rate_per_second_bps as int,
        ),
        indices.0 <= indices.1,
{
    let previous_index = match stored {
        Some(index) => index,
        None => 0,
    };
    let new_index = calculate_monotonic_index(previous_index, elapsed_seconds, rate_per_second_bps);
    (previous_index, new_index)
}

} // verus!
