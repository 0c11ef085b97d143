use vstd::prelude::*;
use crate::amount::Amount;
use crate::types::AmountLimits;

verus! {

/// Whether an amount lies within a requirement's bounds.
///
/// With no bounds at all, any positive amount passes. A positive minimum
/// is inclusive; a minimum of zero, or an absent one, demands a positive
/// amount. A maximum excludes itself unless `equal_max` is set.
pub open spec fn spec_in_range(amount: Amount, limits: Option<AmountLimits>, equal_max: bool) -> bool {
    match limits {
        Some(l) => {
            let min = match l.min_amount {
                Some(m) => m,
                None => Amount { units: 0 },
            };
            let min_ok = if min.units > 0 {
                amount.units >= min.units
            } else {
                amount.units > 0
            };
            match l.max_amount {
                Some(max) => {
                    let max_ok = if equal_max {
                        amount.units <= max.units
                    } else {
                        amount.units < max.units
                    };
                    min_ok && max_ok
                },
                None => min_ok,
            }
        },
        None => amount.units > 0,
    }
}

/// Whether an amount lies within a requirement's bounds, as
/// `spec_in_range` states. The single source of truth for thresholds.
pub fn check_if_in_range(amount: Amount, limits: &Option<AmountLimits>, equal_max: bool) -> (r:
    bool)
    ensures
        r == spec_in_range(amount, *limits, equal_max),
{
    match limits {
        Some(l) => {
            let min = match l.min_amount {
                Some(m) => m,
                None => Amount::zero(),
            };
            let min_ok = if min.units > 0 {
                amount.units >= min.units
            } else {
                amount.units > 0
            };
            match l.max_amount {
                Some(max) => {
                    let max_ok = if equal_max {
                        amount.units <= max.units
                    } else {
                        amount.units < max.units
                    };
                    min_ok && max_ok
                },
                None => min_ok,
            }
        },
        None => amount.units > 0,
    }
}

/// Without limits, an amount is in range exactly when it is positive.
pub proof fn lemma_in_range_no_limits(x: Amount, equal_max: bool)
    ensures
        spec_in_range(x, None, equal_max) <==> x.units > 0,
{
}

/// With a zero minimum and no maximum, an amount is in range exactly when
/// it is positive.
pub proof fn lemma_in_range_zero_min(x: Amount, equal_max: bool)
    ensures
        spec_in_range(
            x,
            Some(AmountLimits { min_amount: Some(Amount { units: 0 }), max_amount: None }),
            equal_max,
        ) <==> x.units > 0,
{
}

/// With a positive minimum and a maximum not counted as in range, an
/// amount is in range exactly when the minimum is reached and the
/// maximum is not.
pub proof fn lemma_in_range_min_max(x: Amount, min: Amount, max: Amount)
    requires
        min.units > 0,
    ensures
        spec_in_range(
            x,
            Some(AmountLimits { min_amount: Some(min), max_amount: Some(max) }),
            false,
        ) <==> (min.units <= x.units < max.units),
{
}

} // verus!
