use bayes_predict::combinatorics::nchoosek;

#[test]
fn test_nchoosek() {
    assert_eq!(4845_u64, nchoosek(20, 4));
    assert!(494705855605882455_f64 - (nchoosek(87, 17) as f64) < 10_000_000_f64);
    assert_eq!(84_u64, nchoosek(9, 3));
}

#[test]
fn main_test_nchoosek() {
    assert_eq!(4845_u64, nchoosek(20, 4));
    assert!(494705855605882455_f64 - (nchoosek(87, 17) as f64) < 10_000_000_f64);
    assert_eq!(84_u64, nchoosek(9, 3));
}

#[test]
fn nchoosek_is_exact_for_large_rows() {
    assert_eq!(494705855605882455_u64, nchoosek(87, 17));
    assert_eq!(118264581564861424_u64, nchoosek(60, 30));
    assert_eq!(14226520737620288370_u64, nchoosek(67, 33));
}

#[test]
fn nchoosek_edges() {
    assert_eq!(1, nchoosek(0, 0));
    assert_eq!(1, nchoosek(25, 0));
    assert_eq!(1, nchoosek(25, 25));
    assert_eq!(25, nchoosek(25, 1));
    assert_eq!(25, nchoosek(25, 24));
    assert_eq!(nchoosek(40, 13), nchoosek(40, 27));
    assert_eq!(u64::MAX, nchoosek(u64::MAX, 1));
}

#[test]
fn nchoosek_saturates_past_u64() {
    assert_eq!(u64::MAX, nchoosek(68, 34));
    assert_eq!(u64::MAX, nchoosek(90, 45));
    assert_eq!(u64::MAX, nchoosek(u64::MAX, 2));
    assert_eq!(u64::MAX, nchoosek(1_000_000_000_000, 500_000_000_000));
}
