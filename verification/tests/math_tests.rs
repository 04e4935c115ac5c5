use oracleguard::math::{
    compute_max_releasable_lovelace, select_release_band_bps, BAND_HIGH_BPS, BAND_LOW_BPS,
    BAND_MID_BPS, BASIS_POINT_SCALE, THRESHOLD_HIGH_MICROUSD, THRESHOLD_MID_MICROUSD,
};

#[test]
fn band_constants_match_policy_table() {
    assert_eq!(THRESHOLD_HIGH_MICROUSD, 500_000);
    assert_eq!(THRESHOLD_MID_MICROUSD, 350_000);
    assert_eq!(BAND_HIGH_BPS, 10_000);
    assert_eq!(BAND_MID_BPS, 7_500);
    assert_eq!(BAND_LOW_BPS, 5_000);
    assert_eq!(BASIS_POINT_SCALE, 10_000);
}

#[test]
fn price_at_high_threshold_selects_high_band() {
    assert_eq!(select_release_band_bps(500_000), BAND_HIGH_BPS);
}

#[test]
fn price_just_above_high_threshold_selects_high_band() {
    assert_eq!(select_release_band_bps(500_001), BAND_HIGH_BPS);
}

#[test]
fn price_just_below_high_threshold_selects_mid_band() {
    assert_eq!(select_release_band_bps(499_999), BAND_MID_BPS);
}

#[test]
fn price_at_mid_threshold_selects_mid_band() {
    assert_eq!(select_release_band_bps(350_000), BAND_MID_BPS);
}

#[test]
fn price_just_above_mid_threshold_selects_mid_band() {
    assert_eq!(select_release_band_bps(350_001), BAND_MID_BPS);
}

#[test]
fn price_just_below_mid_threshold_selects_low_band() {
    assert_eq!(select_release_band_bps(349_999), BAND_LOW_BPS);
}

#[test]
fn zero_price_selects_low_band() {
    assert_eq!(select_release_band_bps(0), BAND_LOW_BPS);
}

#[test]
fn one_microusd_selects_low_band() {
    assert_eq!(select_release_band_bps(1), BAND_LOW_BPS);
}

#[test]
fn u64_max_price_selects_high_band() {
    assert_eq!(select_release_band_bps(u64::MAX), BAND_HIGH_BPS);
}

#[test]
fn demo_price_450k_selects_mid_band() {
    assert_eq!(select_release_band_bps(450_000), BAND_MID_BPS);
}

#[test]
fn charli3_golden_258k_selects_low_band() {
    assert_eq!(select_release_band_bps(258_000), BAND_LOW_BPS);
}

#[test]
fn band_selection_is_deterministic() {
    for price in [0u64, 1, 349_999, 350_000, 499_999, 500_000, u64::MAX] {
        let a = select_release_band_bps(price);
        let b = select_release_band_bps(price);
        assert_eq!(a, b, "price {price} varied across calls");
    }
}

#[test]
fn every_band_output_is_from_the_frozen_set() {
    let sample_prices = [
        0u64,
        1,
        100_000,
        349_998,
        349_999,
        350_000,
        350_001,
        450_000,
        499_999,
        500_000,
        500_001,
        1_000_000,
        u64::MAX - 1,
        u64::MAX,
    ];
    for price in sample_prices {
        let bps = select_release_band_bps(price);
        assert!(
            bps == BAND_LOW_BPS || bps == BAND_MID_BPS || bps == BAND_HIGH_BPS,
            "price {price} produced non-band value {bps}"
        );
    }
}

#[test]
fn band_selection_is_monotone_across_thresholds() {
    let prices = [0u64, 1, 349_999, 350_000, 499_999, 500_000, u64::MAX];
    for w in prices.windows(2) {
        assert!(select_release_band_bps(w[0]) <= select_release_band_bps(w[1]));
    }
}

#[test]
fn max_releasable_scales_by_band() {
    assert_eq!(compute_max_releasable_lovelace(1_000_000_000, BAND_MID_BPS), 750_000_000);
    assert_eq!(compute_max_releasable_lovelace(1_000_000_000, BAND_LOW_BPS), 500_000_000);
    assert_eq!(compute_max_releasable_lovelace(1_000_000_000, BAND_HIGH_BPS), 1_000_000_000);
    // Rounds down.
    assert_eq!(compute_max_releasable_lovelace(3, BAND_MID_BPS), 2);
    // No overflow at the top of the range.
    assert_eq!(compute_max_releasable_lovelace(u64::MAX, BAND_HIGH_BPS), u64::MAX);
    assert_eq!(compute_max_releasable_lovelace(u64::MAX, BAND_LOW_BPS), u64::MAX / 2);
}
