use eokit::scalar::{pow, Scalar};

#[test]
fn integers_wrap() {
    assert_eq!(<i64 as Scalar>::from_int(-7), -7);
    assert_eq!(Scalar::add(i64::MAX, 1), i64::MIN);
    assert_eq!(Scalar::sub(i64::MIN, 1), i64::MAX);
    assert_eq!(Scalar::mul(i64::MAX, 2), -2);
    assert_eq!(Scalar::add(2i64, 3), 5);
    assert_eq!(Scalar::sub(2i64, 3), -1);
    assert_eq!(Scalar::mul(2i64, 3), 6);
}

#[test]
fn powers_of_integers() {
    assert_eq!(pow(3i64, 0), 1);
    assert_eq!(pow(3i64, 1), 3);
    assert_eq!(pow(3i64, 4), 81);
    assert_eq!(pow(-2i64, 5), -32);
    assert_eq!(pow(0i64, 0), 1);
    assert_eq!(pow(0i64, 3), 0);
}
