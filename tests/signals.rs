use vibe_hft::ofi::{calculate_ofi, OFICalculator};

#[test]
fn test_ofi_price_improvement() {
    let mut ofi = OFICalculator::new(10);

    ofi.update(100, 10, 101, 10);

    let result = ofi.update(101, 15, 102, 10);
    assert!(result > 0, "OFI should be positive with bid improvement");
}

#[test]
fn test_ofi_price_deterioration() {
    let mut ofi = OFICalculator::new(10);

    ofi.update(100, 10, 101, 10);

    let result = ofi.update(99, 10, 100, 10);
    assert!(result < 0, "OFI should be negative with bid deterioration");
}

#[test]
fn test_nobi_normalization() {
    let mut ofi = OFICalculator::new(10);

    ofi.update(100, 10, 101, 10);
    ofi.update(101, 15, 102, 10);

    let nobi = ofi.calculate_nobi(100, 100);
    let value = nobi.net as f64 / nobi.depth as f64;
    assert!(value >= -1.0 && value <= 1.0, "NOBI should be between -1 and 1");
}

#[test]
fn ofi_exact_events() {
    let mut ofi = OFICalculator::new(10);
    assert_eq!(ofi.update(100, 10, 101, 10), 0);
    // bid rose: +15; ask rose: -10 (old size left) => 15 - (-10)
    assert_eq!(ofi.update(101, 15, 102, 10), 25);
    // bid unchanged 15 -> 12: -3; ask fell: +4 => -3 - 4 = -7, total 18
    assert_eq!(ofi.update(101, 12, 100, 4), 18);
    // bid fell: -12; ask unchanged 4 -> 9: +5 => -17, total 1
    assert_eq!(ofi.update(99, 1, 100, 9), 1);
    assert_eq!(ofi.get_ofi(), 1);
    let n = ofi.calculate_nobi(3, 5);
    assert_eq!(n.net, 1);
    assert_eq!(n.depth, 8);
    let z = ofi.calculate_nobi(0, 0);
    assert_eq!(z.depth, 0);
}

#[test]
fn ofi_window_keeps_latest_events() {
    let mut ofi = OFICalculator::new(2);
    ofi.update(100, 10, 200, 10); // 0, 0
    ofi.update(101, 1, 200, 10); // bid +1
    ofi.update(102, 2, 200, 10); // bid +2
    assert_eq!(ofi.get_ofi(), 3);
    ofi.update(103, 4, 200, 10); // bid +4, the +1 leaves
    assert_eq!(ofi.get_ofi(), 6);
    ofi.update(103, 4, 201, 10); // ask rose: -10, bid 0; the +2 leaves
    assert_eq!(ofi.get_ofi(), 14);
}

#[test]
fn ofi_zero_window_keeps_nothing() {
    let mut ofi = OFICalculator::new(0);
    ofi.update(100, 10, 101, 10);
    assert_eq!(ofi.update(105, 10, 101, 10), 0);
}

#[test]
fn ofi_reset_then_one_update_is_zero() {
    let mut ofi = OFICalculator::new(5);
    ofi.update(100, 10, 101, 10);
    ofi.update(101, 15, 102, 10);
    assert_ne!(ofi.get_ofi(), 0);
    ofi.reset();
    assert_eq!(ofi.get_ofi(), 0);
    assert_eq!(ofi.update(50, 1, 60, 1), 0);
    // the first observation after the reset is the new reference
    assert_eq!(ofi.update(51, 2, 60, 1), 2);
}

#[test]
fn single_step_ofi() {
    assert_eq!(calculate_ofi(15, 10, 10, 10, 101, 102, 100, 101), 25);
    assert_eq!(calculate_ofi(10, 10, 10, 10, 99, 100, 100, 101), -20);
    assert_eq!(calculate_ofi(12, 7, 10, 4, 100, 101, 100, 101), -1);
}
