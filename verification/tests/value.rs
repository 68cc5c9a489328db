use bytecode_vm::value::{Value, SIGN_BIT};

#[test]
fn value_keeps_its_bits() {
    assert_eq!(Value::new(0).to_bits(), 0);
    assert_eq!(Value::new(u64::MAX).to_bits(), u64::MAX);
    assert_eq!(f64::from_bits(Value::new(1.2f64.to_bits()).to_bits()), 1.2);
}

#[test]
fn negate_is_the_negation_of_the_number() {
    for x in [0.0f64, 1.0, 1.2, 5.0, -5.0, 1e300, -1e-300, f64::MAX, f64::MIN_POSITIVE] {
        let negated = Value::new(x.to_bits()).negate();
        assert_eq!(negated.to_bits(), (-x).to_bits());
    }
}

#[test]
fn negate_flips_the_sign_bit_only() {
    assert_eq!(Value::new(0).negate().to_bits(), SIGN_BIT);
    assert_eq!(Value::new(SIGN_BIT).negate().to_bits(), 0);
    assert_eq!(Value::new(0x3ff0_0000_0000_0000).negate().to_bits(), 0xbff0_0000_0000_0000);
    assert_eq!(Value::new(u64::MAX).negate().to_bits(), 0x7fff_ffff_ffff_ffff);
}

#[test]
fn negate_of_zero_infinity_and_nan() {
    let zero = Value::new(0.0f64.to_bits()).negate();
    assert!(f64::from_bits(zero.to_bits()).is_sign_negative());
    assert_eq!(f64::from_bits(zero.to_bits()), 0.0);
    let infinity = Value::new(f64::INFINITY.to_bits()).negate();
    assert_eq!(f64::from_bits(infinity.to_bits()), f64::NEG_INFINITY);
    let nan = Value::new(f64::NAN.to_bits()).negate();
    assert!(f64::from_bits(nan.to_bits()).is_nan());
    assert_eq!(nan.to_bits(), (-f64::NAN).to_bits());
}

#[test]
fn negate_twice_is_the_number() {
    for bits in [0u64, 1, SIGN_BIT, 0x4014_0000_0000_0000, u64::MAX, 0x7ff8_0000_0000_0001] {
        assert_eq!(Value::new(bits).negate().negate().to_bits(), bits);
        assert_ne!(Value::new(bits).negate().to_bits(), bits);
    }
}
