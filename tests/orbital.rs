use orbital_cloud::orbital::{orbital_polynomials, proposal_radius, OrbitalError, QuantumNumbers};

fn qn(n: u8, l: u8, ml: i8) -> QuantumNumbers {
    QuantumNumbers { n, l, ml }
}

#[test]
fn ground_state_polynomials_are_positive_constants() {
    let p = orbital_polynomials(qn(1, 0, 0)).unwrap();
    assert_eq!(p.radial, vec![1]);
    assert_eq!(p.angular, vec![1]);
}

#[test]
fn excited_state_polynomials() {
    let p = orbital_polynomials(qn(3, 0, 0)).unwrap();
    assert_eq!(p.radial, vec![6, -6, 1]);
    assert_eq!(p.angular, vec![1]);
    let p = orbital_polynomials(qn(2, 1, -1)).unwrap();
    assert_eq!(p.radial, vec![1]);
    assert_eq!(p.angular, vec![-1]);
    let p = orbital_polynomials(qn(3, 2, 1)).unwrap();
    assert_eq!(p.radial, vec![1]);
    assert_eq!(p.angular, vec![0, -3]);
}

#[test]
fn invalid_quantum_numbers_are_rejected() {
    for q in [qn(0, 0, 0), qn(2, 2, 0), qn(3, 1, 2), qn(3, 1, -2), qn(200, 100, -128)] {
        assert!(!q.is_valid());
        assert_eq!(orbital_polynomials(q).unwrap_err(), OrbitalError::InvalidQuantumNumbers);
    }
    assert!(qn(3, 2, -2).is_valid());
}

#[test]
fn oversized_orbital_overflows() {
    assert_eq!(orbital_polynomials(qn(255, 0, 0)).unwrap_err(), OrbitalError::Overflow);
}

#[test]
fn magnetic_order_is_absolute_value() {
    assert_eq!(qn(5, 4, -3).magnetic_order(), 3);
    assert_eq!(qn(5, 4, 2).magnetic_order(), 2);
    assert_eq!(qn(1, 0, -128).magnetic_order(), 128);
}

#[test]
fn proposal_radius_is_ten_n_squared() {
    assert_eq!(proposal_radius(1), 10);
    assert_eq!(proposal_radius(3), 90);
    assert_eq!(proposal_radius(255), 650250);
}
