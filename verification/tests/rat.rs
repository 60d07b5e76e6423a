use sensor_fusion_sim::rat::Rat;

fn r(n: i64, d: i64) -> Rat {
    Rat::new(n, d).unwrap()
}

#[test]
fn test_new_reduces() {
    let x = r(2, 4);
    assert_eq!(x.num(), 1);
    assert_eq!(x.den(), 2);
    assert!(x.eq_value(&r(1, 2)));
}

#[test]
fn test_new_zero_denominator() {
    assert!(Rat::new(1, 0).is_none());
}

#[test]
fn test_new_negative_denominator() {
    let x = r(3, -6);
    assert_eq!(x.num(), -1);
    assert_eq!(x.den(), 2);
}

#[test]
fn test_from_int() {
    let x = Rat::from_int(-7);
    assert_eq!(x.num(), -7);
    assert_eq!(x.den(), 1);
}

#[test]
fn test_checked_add_exact() {
    let s = r(1, 3).checked_add(&r(1, 6)).unwrap();
    assert!(s.eq_value(&r(1, 2)));
}

#[test]
fn test_checked_sub_exact() {
    let d = r(1, 2).checked_sub(&r(3, 4)).unwrap();
    assert!(d.eq_value(&r(-1, 4)));
}

#[test]
fn test_checked_mul_exact() {
    let p = r(2, 3).checked_mul(&r(3, 4)).unwrap();
    assert!(p.eq_value(&r(1, 2)));
}

#[test]
fn test_checked_div_exact() {
    let q = r(1, 2).checked_div(&r(-1, 4)).unwrap();
    assert!(q.eq_value(&Rat::from_int(-2)));
}

#[test]
fn test_checked_div_by_zero() {
    assert!(r(1, 2).checked_div(&Rat::from_int(0)).is_none());
}

#[test]
fn test_checked_add_overflow() {
    let big = Rat::from_int(i64::MAX);
    assert!(big.checked_add(&big).is_none());
}

#[test]
fn test_order() {
    assert!(r(1, 3).lt(&r(1, 2)));
    assert!(!r(1, 2).lt(&r(1, 2)));
    assert!(r(-1, 2).lt(&r(1, 1000)));
    assert!(r(1, 2).le(&r(1, 2)));
    assert!(r(1, 2).le(&r(2, 3)));
}
