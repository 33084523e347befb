use orbital_cloud::polynomials::{assoc_laguerre, associated_p, three_term_step};

fn value(coeffs: &[i128], x: f64) -> f64 {
    coeffs.iter().rev().fold(0.0, |acc, &c| acc * x + c as f64)
}

#[test]
fn laguerre_degree_zero_is_one() {
    for k in [0u16, 1, 3, 7, 200] {
        assert_eq!(assoc_laguerre(0, k), Some(vec![1]));
    }
}

#[test]
fn laguerre_degree_one_is_one_plus_k_minus_x() {
    for k in [0u16, 1, 3, 7, 200] {
        assert_eq!(assoc_laguerre(1, k), Some(vec![1 + k as i128, -1]));
        for x in [-2.0f64, 0.0, 0.5, 3.25] {
            let got = value(&assoc_laguerre(1, k).unwrap(), x);
            assert!((got - (1.0 + k as f64 - x)).abs() < 1e-12);
        }
    }
}

#[test]
fn laguerre_degree_two_order_zero_closed_form() {
    let c = assoc_laguerre(2, 0).unwrap();
    assert_eq!(c, vec![2, -4, 1]);
    for x in [-1.5f64, 0.0, 0.3, 2.0, 7.75] {
        let got = value(&c, x) / 2.0;
        let want = (x * x - 4.0 * x + 2.0) / 2.0;
        assert!((got - want).abs() < 1e-12);
    }
}

#[test]
fn laguerre_degree_two_order_one() {
    assert_eq!(assoc_laguerre(2, 1), Some(vec![6, -6, 1]));
}

#[test]
fn laguerre_degree_three_order_zero() {
    // 3! L_3(x) = -x^3 + 9x^2 - 18x + 6
    assert_eq!(assoc_laguerre(3, 0), Some(vec![6, -18, 9, -1]));
}

#[test]
fn laguerre_overflow_is_reported() {
    assert_eq!(assoc_laguerre(255, 0), None);
}

#[test]
fn legendre_lowest_degrees() {
    assert_eq!(associated_p(0, 0), Some(vec![1]));
    assert_eq!(associated_p(1, 0), Some(vec![0, 1]));
    assert_eq!(associated_p(1, 1), Some(vec![-1]));
    for x in [-0.9f64, -0.2, 0.0, 0.4, 0.95] {
        let s = ((1.0 - x) * (1.0 + x)).sqrt();
        assert!((value(&associated_p(1, 0).unwrap(), x) - x).abs() < 1e-12);
        let p11 = s * value(&associated_p(1, 1).unwrap(), x);
        assert!((p11 + (1.0 - x * x).sqrt()).abs() < 1e-12);
    }
}

#[test]
fn legendre_degree_two() {
    // 2! P_2(x) = 3x^2 - 1
    assert_eq!(associated_p(2, 0), Some(vec![-1, 0, 3]));
    // P(2, 1, x) = -3x sqrt(1 - x^2)
    assert_eq!(associated_p(2, 1), Some(vec![0, -3]));
    // P(2, 2, x) = 3 (1 - x^2)
    assert_eq!(associated_p(2, 2), Some(vec![3]));
}

#[test]
fn legendre_order_above_degree_is_zero() {
    assert_eq!(associated_p(1, 2), Some(vec![]));
}

#[test]
fn legendre_overflow_is_reported() {
    assert_eq!(associated_p(255, 255), None);
}

#[test]
fn three_term_step_combines_terms() {
    // 2 * (1 + x) + 3 * x * (1 + x) - 1 * (5) = -3 + 5x + 3x^2
    assert_eq!(three_term_step(&vec![5], &vec![1, 1], 2, 3, -1), Some(vec![-3, 5, 3]));
    assert_eq!(three_term_step(&vec![], &vec![i128::MAX], 2, 0, 0), None);
}
