use stark_vm::field;

#[test]
fn field_arithmetic() {
    let m = field::MODULUS;
    assert_eq!(m - 3, field::sub(1, 4));
    assert_eq!(2, field::add(m - 1, 3));
    assert_eq!(m - 5, field::neg(5));
    assert_eq!(1, field::mul(field::inv(3), 3));
    assert_eq!(1u128 << 127, field::exp(2, 127));
    assert_eq!(m - 1, field::mul(m - 1, 1));
    assert_eq!(1, field::mul(m - 1, m - 1));
    assert_eq!(0, field::inv(0));
    assert_eq!((m + 1) / 2, field::half(1));
    assert_eq!(21, field::half(42));
    assert_eq!(9, field::exp(3, 2));
    assert_eq!(1, field::exp(12345, 0));
}

#[test]
fn sbox_inverts() {
    let x = 123456789u128;
    let y = field::exp(x, field::ALPHA);
    assert_eq!(x, field::exp(y, field::INV_ALPHA));
}
