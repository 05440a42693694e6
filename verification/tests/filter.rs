use diff_filter::diff_filter_denom_coeffs;
use diff_filter::diff_filter_shape;

#[test]
fn shape_order_two() {
    let s = diff_filter_shape(2);
    assert_eq!(s.nstates, 2);
    assert_eq!(s.ninputs, 1);
    assert_eq!(s.noutputs, 3);
}

#[test]
fn shape_order_one() {
    let s = diff_filter_shape(1);
    assert_eq!(s.nstates, 1);
    assert_eq!(s.ninputs, 1);
    assert_eq!(s.noutputs, 2);
}

#[test]
fn shape_order_zero_is_degenerate() {
    let s = diff_filter_shape(0);
    assert_eq!(s.nstates, 0);
    assert_eq!(s.ninputs, 1);
    assert_eq!(s.noutputs, 1);
}

#[test]
fn denom_coeff_rows_up_to_order_four() {
    assert_eq!(diff_filter_denom_coeffs(0), vec![1]);
    assert_eq!(diff_filter_denom_coeffs(1), vec![1, 1]);
    assert_eq!(diff_filter_denom_coeffs(2), vec![1, 2, 1]);
    assert_eq!(diff_filter_denom_coeffs(3), vec![1, 3, 3, 1]);
    assert_eq!(diff_filter_denom_coeffs(4), vec![1, 4, 6, 4, 1]);
}

#[test]
fn denom_coeff_edges_are_one() {
    for order in 1..=10u32 {
        let v = diff_filter_denom_coeffs(order);
        assert_eq!(v.len(), order as usize + 1);
        assert_eq!(v[0], 1);
        assert_eq!(v[order as usize], 1);
    }
}

#[test]
fn denom_coeff_row_is_symmetric() {
    for order in 0..=10u32 {
        let v = diff_filter_denom_coeffs(order);
        for k in 0..v.len() {
            assert_eq!(v[k], v[v.len() - 1 - k]);
        }
    }
}
