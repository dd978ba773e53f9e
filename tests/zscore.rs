use q_explore::zscore::{ranks_at_least_exec, Extremum, ZScore};

fn z(numer: i64, denom_sq: u64) -> ZScore {
    ZScore { numer, denom_sq }
}

#[test]
fn equal_values_with_different_denominators_compare_equal() {
    // 1/sqrt(2) and 2/sqrt(8) are the same number.
    let a = z(1, 2);
    let b = z(2, 8);
    assert!(a.le(&b));
    assert!(b.le(&a));
    assert!(a.abs_le(&b) && b.abs_le(&a));
}

#[test]
fn ordering_across_denominators_is_exact() {
    // 3/sqrt(10) is about 0.9487, just below 19/sqrt(400) = 0.95.
    let a = z(3, 10);
    let b = z(19, 400);
    assert!(a.le(&b));
    assert!(!b.le(&a));
}

#[test]
fn negative_scores_order_by_magnitude_reversed() {
    let a = z(-5, 4); // -2.5
    let b = z(-2, 1); // -2
    assert!(a.le(&b));
    assert!(!b.le(&a));
    assert!(b.abs_le(&a));
    assert!(!a.abs_le(&b));
}

#[test]
fn sign_decides_before_magnitude() {
    let neg = z(-1, 1_000_000);
    let pos = z(1, 1_000_000_000);
    assert!(neg.le(&pos));
    assert!(!pos.le(&neg));
}

#[test]
fn extremes_rank_as_named() {
    let lo = z(-3, 9);
    let hi = z(2, 1);
    assert!(ranks_at_least_exec(Extremum::Highest, &hi, &lo));
    assert!(!ranks_at_least_exec(Extremum::Highest, &lo, &hi));
    assert!(ranks_at_least_exec(Extremum::Lowest, &lo, &hi));
    assert!(ranks_at_least_exec(Extremum::FarthestFromZero, &hi, &lo));
    assert!(!ranks_at_least_exec(Extremum::FarthestFromZero, &lo, &hi));
}

#[test]
fn large_parts_compare_without_overflow() {
    let max = 0x7fff_ffff_ffff_ffffu64;
    let a = z(i64::MAX, max);
    let b = z(i64::MAX - 1, max);
    assert!(b.le(&a));
    assert!(!a.le(&b));
}
