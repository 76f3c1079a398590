use lowrr::error::RegistrationError;
use lowrr::ratio::Ratio;
use lowrr::sparse::use_sparse_resolution;

#[test]
fn decimal_ratios_are_exact() {
    assert_eq!(Ratio::parse_unit_decimal("0.5"), Ok(Ratio { num: 5, den: 10 }));
    assert_eq!(Ratio::parse_unit_decimal("1"), Ok(Ratio { num: 1, den: 1 }));
    assert_eq!(Ratio::parse_unit_decimal("1.0"), Ok(Ratio { num: 10, den: 10 }));
    assert_eq!(Ratio::parse_unit_decimal(".25"), Ok(Ratio { num: 25, den: 100 }));
    assert_eq!(Ratio::parse_unit_decimal("0"), Ok(Ratio { num: 0, den: 1 }));
    assert_eq!(
        Ratio::parse_unit_decimal("0.12345678901234567"),
        Ok(Ratio { num: 12345678901234567, den: 100000000000000000 })
    );
}

#[test]
fn malformed_or_out_of_range_ratios_are_bad_config() {
    for s in ["1.5", "abc", "", ".", "0.5.1", "-0.5", "5e-1", "0.123456789012345678"] {
        assert_eq!(Ratio::parse_unit_decimal(s), Err(RegistrationError::BadConfig), "{}", s);
    }
}

#[test]
fn sparse_when_share_below_threshold() {
    let half = Ratio { num: 5, den: 10 };
    assert!(use_sparse_resolution(10, 100, half));
    assert!(use_sparse_resolution(49, 100, half));
    assert!(!use_sparse_resolution(50, 100, half));
    assert!(!use_sparse_resolution(0, 0, half));
    assert!(!use_sparse_resolution(0, 10, Ratio { num: 0, den: 1 }));
    assert!(use_sparse_resolution(usize::MAX - 1, usize::MAX, Ratio { num: 1, den: 1 }));
}
