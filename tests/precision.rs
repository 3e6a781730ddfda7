use gridish::constants::{_100KM, _10KM};
use gridish::Precision;

#[test]
fn converts_to_metres() {
    assert_eq!(Precision::_100Km.metres(), _100KM);
    assert_eq!(Precision::_10Km.metres(), _10KM);
    assert_eq!(Precision::_1Km.metres(), 1_000);
    assert_eq!(Precision::_100M.metres(), 100);
    assert_eq!(Precision::_10M.metres(), 10);
    assert_eq!(Precision::_1M.metres(), 1);
}

#[test]
fn tetrads_span_two_kilometres() {
    assert_eq!(Precision::_2Km.metres(), 2_000);
    assert_eq!(Precision::_2Km.digits(), 2);
}

#[test]
fn counts_digits() {
    assert_eq!(Precision::_100Km.digits(), 0);
    assert_eq!(Precision::_10Km.digits(), 2);
    assert_eq!(Precision::_1Km.digits(), 4);
    assert_eq!(Precision::_100M.digits(), 6);
    assert_eq!(Precision::_10M.digits(), 8);
    assert_eq!(Precision::_1M.digits(), 10);
}

#[test]
fn orders_coarsest_first() {
    assert!(Precision::_100Km < Precision::_10Km);
    assert!(Precision::_10Km < Precision::_2Km);
    assert!(Precision::_2Km < Precision::_1Km);
    assert!(Precision::_1Km < Precision::_1M);
}
