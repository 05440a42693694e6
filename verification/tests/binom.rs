use diff_filter::binom_u32;

#[test]
fn binom_edges() {
    assert_eq!(binom_u32(0, 0), 1);
    assert_eq!(binom_u32(7, 0), 1);
    assert_eq!(binom_u32(7, 7), 1);
    assert_eq!(binom_u32(7, 1), 7);
    assert_eq!(binom_u32(7, 6), 7);
}

#[test]
fn binom_small_values() {
    assert_eq!(binom_u32(4, 2), 6);
    assert_eq!(binom_u32(5, 2), 10);
    assert_eq!(binom_u32(6, 3), 20);
    assert_eq!(binom_u32(10, 5), 252);
    assert_eq!(binom_u32(12, 4), 495);
}

#[test]
fn binom_symmetry_concrete() {
    for n in 0..=12u32 {
        for k in 0..=n {
            assert_eq!(binom_u32(n, k), binom_u32(n, n - k));
        }
    }
}

#[test]
fn binom_pascal_rule_concrete() {
    for n in 2..=20u32 {
        for k in 1..n {
            assert_eq!(
                binom_u32(n, k),
                binom_u32(n - 1, k - 1) + binom_u32(n - 1, k)
            );
        }
    }
}

#[test]
fn binom_widest_row_that_fits() {
    // the central coefficient of row 34 is the largest binomial that
    // still fits in a u32
    assert_eq!(binom_u32(34, 17), 2_333_606_220);
    assert_eq!(binom_u32(34, 2), 561);
}
