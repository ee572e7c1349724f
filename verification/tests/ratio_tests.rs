use ratio_lattice::ratio::Ratio;

#[test]
fn new_ratio() {
    let r = Ratio::new(3, 2);

    assert_eq!(r.numer, 3);
    assert_eq!(r.denom, 2);
}

#[test]
fn reduces_ratio() {
    let r = Ratio::new(3, 6);

    assert_eq!(r.numer, 1);
    assert_eq!(r.denom, 2);
}

#[test]
fn normalize() {
    let r = Ratio::new(1, 2);
    assert_eq!(r.normalize(), Ratio::new(1, 1));
}

#[test]
fn multiply() {
    let r1 = Ratio::new(3, 2);
    let r2 = Ratio::new(9, 8);

    assert_eq!(r1.multiply(r2), Ratio::new(27, 16));
}

#[test]
fn divide() {
    let r1 = Ratio::new(3, 2);
    let r2 = Ratio::new(9, 8);

    assert_eq!(r1.divide(r2), Ratio::new(4, 3));
    assert_eq!(r2.divide(r1), Ratio::new(3, 4));
}

#[test]
fn complement() {
    let r1 = Ratio::new(3, 2);

    assert_eq!(r1.complement(), Ratio::new(4, 3))
}

#[test]
fn pow() {
    let r = Ratio::new(3, 2);

    assert_eq!(r.pow(0), Ratio::new(1, 1));
    assert_eq!(r.pow(2), Ratio::new(9, 4));
    assert_eq!(r.pow(-2), Ratio::new(16, 9));
}

#[test]
fn reduces_negative_numerator() {
    let r = Ratio::new(-3, 6);

    assert_eq!(r.numer, -1);
    assert_eq!(r.denom, 2);
}

#[test]
fn reduces_negative_denominator() {
    let r = Ratio::new(3, -6);

    assert_eq!(r.numer, 1);
    assert_eq!(r.denom, -2);
}

#[test]
fn zero_numerator_reduces_fully() {
    let r = Ratio::new(0, 5);

    assert_eq!(r.numer, 0);
    assert_eq!(r.denom, 1);
}

#[test]
fn normalize_is_idempotent() {
    let r = Ratio::new(9, 2);
    let once = r.normalize();

    assert_eq!(once, Ratio::new(9, 8));
    assert_eq!(once.normalize(), once);
}

#[test]
fn normalize_keeps_window_values() {
    let r = Ratio::new(3, 2);

    assert_eq!(r.normalize(), r);
}

#[test]
fn pow_negative_matches_complement_pow() {
    let r = Ratio::new(3, 2);

    assert_eq!(r.pow(-3), r.complement().pow(3));
    assert_ne!(r.pow(-2), Ratio::new(4, 9));
}
