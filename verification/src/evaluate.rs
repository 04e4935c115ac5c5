//! The pure release-cap evaluator.
use vstd::prelude::*;

use crate::intent::DisbursementIntentV1;
use crate::math::{
    band_for_price, compute_max_releasable_lovelace, is_release_band, max_releasable,
    select_release_band_bps,
};
use crate::reason::DisbursementReasonCode;

verus! {

/// The closed result surface of the evaluator.
#[derive(Debug, Clone, Copy, PartialEq, Eq, Hash, Structural)]
pub enum EvaluationResult {
    /// The request is authorized at the exact requested amount.
    Allow {
        /// Authorized amount (always the requested amount).
        authorized_amount_lovelace: u64,
        /// The band that authorized the request.
        release_cap_basis_points: u64,
    },
    /// The request is denied with a canonical reason.
    Deny {
        /// Denial reason.
        reason: DisbursementReasonCode,
    },
}

/// The evaluator's decision, as a function of the only three values it
/// reads: requested amount, oracle price and allocation basis.
///
/// Checks run in the fixed order `AmountZero`, `OraclePriceZero`,
/// `ReleaseCapExceeded`; a request at or below the cap of the price's band
/// is allowed at exactly the requested amount.
pub open spec fn decide(requested: u64, price_microusd: u64, basis_lovelace: u64) -> EvaluationResult {
    if requested == 0 {
        EvaluationResult::Deny { reason: DisbursementReasonCode::AmountZero }
    } else if price_microusd == 0 {
        EvaluationResult::Deny { reason: DisbursementReasonCode::OraclePriceZero }
    } else {
        let bps = band_for_price(price_microusd as int);
        if requested > max_releasable(basis_lovelace as int, bps as int) {
            EvaluationResult::Deny { reason: DisbursementReasonCode::ReleaseCapExceeded }
        } else {
            EvaluationResult::Allow {
                authorized_amount_lovelace: requested,
                release_cap_basis_points: bps,
            }
        }
    }
}

/// The evaluator's decision on an intent and an allocation basis.
pub open spec fn spec_evaluate(intent: DisbursementIntentV1, basis_lovelace: u64) -> EvaluationResult {
    decide(intent.requested_amount_lovelace, intent.oracle_fact.price_microusd, basis_lovelace)
}

/// Evaluate a disbursement intent against a caller-supplied allocation basis.
pub fn evaluate_disbursement(intent: &DisbursementIntentV1, allocation_basis_lovelace: u64) -> (r:
    EvaluationResult)
    ensures
        r == spec_evaluate(*intent, allocation_basis_lovelace),
{
    let requested = intent.requested_amount_lovelace;
    let price = intent.oracle_fact.price_microusd;
    if requested == 0 {
        return EvaluationResult::Deny { reason: DisbursementReasonCode::AmountZero };
    }
    if price == 0 {
        return EvaluationResult::Deny { reason: DisbursementReasonCode::OraclePriceZero };
    }
    let bps = select_release_band_bps(price);
    let cap = compute_max_releasable_lovelace(allocation_basis_lovelace, bps);
    if requested > cap {
        EvaluationResult::Deny { reason: DisbursementReasonCode::ReleaseCapExceeded }
    } else {
        EvaluationResult::Allow { authorized_amount_lovelace: requested, release_cap_basis_points: bps }
    }
}

/// An allowed request is authorized at exactly the requested amount, under
/// a pinned band, and never for more than the band's cap or the allocation.
pub proof fn allow_is_exact_and_capped(intent: DisbursementIntentV1, basis: u64)
    ensures
        spec_evaluate(intent, basis) matches EvaluationResult::Allow {
            authorized_amount_lovelace: amount,
            release_cap_basis_points: bps,
        } ==> {
            &&& amount == intent.requested_amount_lovelace
            &&& amount > 0
            &&& bps == band_for_price(intent.oracle_fact.price_microusd as int)
            &&& is_release_band(bps)
            &&& amount <= max_releasable(basis as int, bps as int)
            &&& amount <= basis
        },
{
    let bps = band_for_price(intent.oracle_fact.price_microusd as int);
    assert(0 <= (basis as int) * (bps as int) <= (basis as int) * 10_000) by (nonlinear_arith)
        requires
            0 <= bps <= 10_000,
    ;
    assert((basis as int) * (bps as int) / 10_000 <= basis) by (nonlinear_arith)
        requires
            0 <= (basis as int) * (bps as int) <= (basis as int) * 10_000,
    ;
}

/// A denial always carries one of the three reasons the evaluator owns.
pub proof fn deny_reasons_are_evaluator_reasons(intent: DisbursementIntentV1, basis: u64)
    ensures
        spec_evaluate(intent, basis) matches EvaluationResult::Deny { reason } ==> (reason
            == DisbursementReasonCode::AmountZero || reason
            == DisbursementReasonCode::OraclePriceZero || reason
            == DisbursementReasonCode::ReleaseCapExceeded),
{
}

/// Provenance non-interference: intents that agree on the oracle evaluation
/// fact and the requested amount get the same decision, whatever their
/// provenance, identities, destination or asset.
pub proof fn evaluation_ignores_provenance(
    a: DisbursementIntentV1,
    b: DisbursementIntentV1,
    basis: u64,
)
    requires
        a.oracle_fact.price_microusd == b.oracle_fact.price_microusd,
        a.requested_amount_lovelace == b.requested_amount_lovelace,
    ensures
        spec_evaluate(a, basis) == spec_evaluate(b, basis),
{
}

/// Shrinking an allowed (non-zero) request keeps it allowed.
pub proof fn allow_is_downward_closed(requested: u64, smaller: u64, price: u64, basis: u64)
    requires
        decide(requested, price, basis) is Allow,
        0 < smaller <= requested,
    ensures
        decide(smaller, price, basis) is Allow,
{
}

/// A larger allocation or a higher price never turns an allow into a deny.
pub proof fn allow_is_monotone_in_basis_and_price(
    requested: u64,
    price: u64,
    basis: u64,
    higher_price: u64,
    larger_basis: u64,
)
    requires
        decide(requested, price, basis) is Allow,
        price <= higher_price,
        basis <= larger_basis,
    ensures
        decide(requested, higher_price, larger_basis) is Allow,
{
    crate::math::band_selection_is_monotone(price, higher_price);
    crate::math::max_releasable_is_monotone(
        basis,
        larger_basis,
        band_for_price(price as int),
        band_for_price(higher_price as int),
    );
}

/// The evaluator in plain arithmetic. With the band `bps` equal to 10_000
/// from a price of 500_000 micro-USD up, 7_500 from 350_000 up and 5_000
/// below: a zero request is denied `AmountZero`; otherwise a zero price is
/// denied `OraclePriceZero`; otherwise the request is allowed at exactly the
/// requested amount under `bps` when `requested * 10_000 <= basis * bps`
/// (at most the basis scaled by the band, rounded down), and denied
/// `ReleaseCapExceeded` only when it exceeds that.
pub proof fn evaluator_decides_by_the_band_cap(intent: DisbursementIntentV1, basis: u64)
    ensures
        ({
            let requested = intent.requested_amount_lovelace;
            let price = intent.oracle_fact.price_microusd;
            let bps: u64 = if price >= 500_000 {
                10_000
            } else if price >= 350_000 {
                7_500
            } else {
                5_000
            };
            let r = spec_evaluate(intent, basis);
            &&& requested == 0 ==> r == (EvaluationResult::Deny {
                reason: DisbursementReasonCode::AmountZero,
            })
            &&& requested > 0 && price == 0 ==> r == (EvaluationResult::Deny {
                reason: DisbursementReasonCode::OraclePriceZero,
            })
            &&& requested > 0 && price > 0 && requested * 10_000 <= basis * bps ==> r == (
            EvaluationResult::Allow {
                authorized_amount_lovelace: requested,
                release_cap_basis_points: bps,
            })
            &&& requested > 0 && price > 0 && requested * 10_000 > basis * bps ==> r == (
            EvaluationResult::Deny { reason: DisbursementReasonCode::ReleaseCapExceeded })
        }),
{
    let requested = intent.requested_amount_lovelace;
    let bps = band_for_price(intent.oracle_fact.price_microusd as int);
    let x = (basis as int) * (bps as int);
    assert(x >= 0) by (nonlinear_arith)
        requires
            x == (basis as int) * (bps as int),
            0 <= basis,
            0 <= bps,
    ;
    vstd::arithmetic::div_mod::lemma_fundamental_div_mod(x, 10_000);
    assert(0 <= x % 10_000 < 10_000) by {
        vstd::arithmetic::div_mod::lemma_mod_bound(x, 10_000);
    }
    assert((requested as int) <= x / 10_000 <==> (requested as int) * 10_000 <= x);
}

} // verus!
