//! Integer-only release-band and release-cap arithmetic.
use vstd::prelude::*;

verus! {

/// At or above this price (micro-USD) the high band applies.
pub const THRESHOLD_HIGH_MICROUSD: u64 = 500_000;

/// At or above this price (micro-USD), and below the high threshold,
/// the mid band applies.
pub const THRESHOLD_MID_MICROUSD: u64 = 350_000;

/// 100% release band, in basis points.
pub const BAND_HIGH_BPS: u64 = 10_000;

/// 75% release band, in basis points.
pub const BAND_MID_BPS: u64 = 7_500;

/// 50% release band, in basis points.
pub const BAND_LOW_BPS: u64 = 5_000;

/// Basis-point denominator (`10_000 bps == 100%`).
pub const BASIS_POINT_SCALE: u64 = 10_000;

/// The release band selected for a price: inclusive on each lower bound.
pub open spec fn band_for_price(price_microusd: int) -> u64 {
    if price_microusd >= THRESHOLD_HIGH_MICROUSD {
        BAND_HIGH_BPS
    } else if price_microusd >= THRESHOLD_MID_MICROUSD {
        BAND_MID_BPS
    } else {
        BAND_LOW_BPS
    }
}

/// One of the three pinned release bands.
pub open spec fn is_release_band(bps: u64) -> bool {
    bps == BAND_LOW_BPS || bps == BAND_MID_BPS || bps == BAND_HIGH_BPS
}

/// Map an oracle price in micro-USD to its release-cap band in basis points.
/// Total over `u64`: every price selects exactly one band.
pub fn select_release_band_bps(price_microusd: u64) -> (bps: u64)
    ensures
        bps == band_for_price(price_microusd as int),
        is_release_band(bps),
{
    if price_microusd >= THRESHOLD_HIGH_MICROUSD {
        BAND_HIGH_BPS
    } else if price_microusd >= THRESHOLD_MID_MICROUSD {
        BAND_MID_BPS
    } else {
        BAND_LOW_BPS
    }
}

/// The releasable amount for an allocation under a band: the allocation
/// scaled by `bps / 10_000`, rounded down.
pub open spec fn max_releasable(basis_lovelace: int, bps: int) -> int {
    (basis_lovelace * bps) / (BASIS_POINT_SCALE as int)
}

/// Compute `floor(basis * bps / 10_000)` without overflow.
/// For every band (`bps <= 10_000`) the result never exceeds the basis.
pub fn compute_max_releasable_lovelace(basis_lovelace: u64, bps: u64) -> (cap: u64)
    requires
        bps <= BASIS_POINT_SCALE,
    ensures
        cap == max_releasable(basis_lovelace as int, bps as int),
        cap <= basis_lovelace,
{
    assert((basis_lovelace as u128) * (bps as u128) <= 0xFFFF_FFFF_FFFF_FFFFu128 * 10_000u128)
        by (nonlinear_arith)
        requires
            bps <= 10_000,
    ;
    let wide: u128 = (basis_lovelace as u128) * (bps as u128);
    let q: u128 = wide / (BASIS_POINT_SCALE as u128);
    proof {
        lemma_cap_at_most_basis(basis_lovelace as int, bps as int);
    }
    q as u64
}

proof fn lemma_cap_at_most_basis(basis: int, bps: int)
    requires
        0 <= basis,
        0 <= bps <= 10_000,
    ensures
        0 <= (basis * bps) / 10_000 <= basis,
{
    assert(0 <= basis * bps <= basis * 10_000) by (nonlinear_arith)
        requires
            0 <= basis,
            0 <= bps <= 10_000,
    ;
    assert(0 <= (basis * bps) / 10_000 <= basis) by (nonlinear_arith)
        requires
            0 <= basis * bps <= basis * 10_000,
    ;
}

/// The band table is ordered: the high threshold lies above the mid one, the
/// bands strictly increase from low to high, and the high band is 100%.
pub proof fn band_table_is_ordered()
    ensures
        THRESHOLD_HIGH_MICROUSD > THRESHOLD_MID_MICROUSD,
        BAND_HIGH_BPS > BAND_MID_BPS,
        BAND_MID_BPS > BAND_LOW_BPS,
        BAND_HIGH_BPS == BASIS_POINT_SCALE,
{
}

/// Band selection is monotone: a higher price never selects a smaller band.
pub proof fn band_selection_is_monotone(p1: u64, p2: u64)
    requires
        p1 <= p2,
    ensures
        band_for_price(p1 as int) <= band_for_price(p2 as int),
{
}

/// Every price selects a band from the frozen set, and the band never
/// exceeds 100%.
pub proof fn band_selection_is_total_and_bounded(price: u64)
    ensures
        is_release_band(band_for_price(price as int)),
        band_for_price(price as int) <= BASIS_POINT_SCALE,
{
}

/// The releasable cap is monotone in both the allocation and the band.
pub proof fn max_releasable_is_monotone(b1: u64, b2: u64, bps1: u64, bps2: u64)
    requires
        b1 <= b2,
        bps1 <= bps2,
    ensures
        max_releasable(b1 as int, bps1 as int) <= max_releasable(b2 as int, bps2 as int),
{
    assert((b1 as int) * (bps1 as int) <= (b2 as int) * (bps2 as int)) by (nonlinear_arith)
        requires
            0 <= b1 <= b2,
            0 <= bps1 <= bps2,
    ;
    vstd::arithmetic::div_mod::lemma_div_is_ordered(
        (b1 as int) * (bps1 as int),
        (b2 as int) * (bps2 as int),
        10_000,
    );
}

} // verus!
