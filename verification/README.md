# credence_bond

Verified rules of the credence bond contract, written in Verus.

- `src/monotonic_interest_index.rs`: the fixed-point (10^18) interest index.
  `calculate_monotonic_index` is proved equal to the accrual rule
  `accrued_index` (compounded every second, each second's increment rounded
  up and at least one unit, saturating at `i128::MAX`), and the laws about it
  (never decreasing, monotone in index, time and rate, splitting an update,
  sequences of updates) are proof functions in the same file.
  `advance_index` takes the stored index as a value.
- `src/redeem.rs`: redemption validation and settlement over plain balances,
  with the laws on accounting and validation order.
- `app/lib.rs`: the contract-side flows (storage, authorization, events) that
  feed the verified rules and turn refusals into the contract's panics.
