use aabel::bits::Bit;

#[test]
fn bit_debug_() {
    println!("zro: {:?}", Bit::Zero);
    println!("one: {:?}", Bit::One);
}

#[test]
fn bit_eq_() {
    assert_ne!(Bit::One, Bit::Zero);
}

#[test]
fn bit_from_u8_() {
    let bit = Bit::from(0_u8);
    assert_eq!(Bit::Zero, bit);

    let bit = Bit::from(10_u8);
    assert_eq!(Bit::One, bit);
}

#[test]
fn u8_from_bit_() {
    let x: u8 = Bit::Zero.into();
    assert_eq!(0, x);

    let x: u8 = Bit::One.into();
    assert_eq!(1, x);
}

#[test]
fn bit_from_bool_() {
    let bit = Bit::from(false);
    assert_eq!(Bit::Zero, bit);

    let bit = Bit::from(true);
    assert_eq!(Bit::One, bit);
}

#[test]
fn bool_from_bit_() {
    let b: bool = Bit::Zero.into();
    assert_eq!(false, b);

    let b: bool = Bit::One.into();
    assert_eq!(true, b);
}

#[test]
fn bit_or_bit_() {
    let bit = Bit::One | Bit::Zero;
    assert_eq!(bit, Bit::One);

    let bit = Bit::Zero | Bit::One;
    assert_eq!(bit, Bit::One);

    let bit = Bit::Zero | Bit::Zero;
    assert_eq!(bit, Bit::Zero);
}

#[test]
fn bit_or_u8_() {
    let bit = Bit::One | 0_u8;
    assert_eq!(bit, Bit::One);

    let bit = Bit::Zero | 1_u8;
    assert_eq!(bit, Bit::One);

    let bit = Bit::Zero | 0_u8;
    assert_eq!(bit, Bit::Zero);
}

#[test]
fn bit_and_bit_() {
    let bit = Bit::Zero & Bit::One;
    assert_eq!(bit, Bit::Zero);

    let bit = Bit::One & Bit::Zero;
    assert_eq!(bit, Bit::Zero);

    let bit = Bit::One & Bit::One;
    assert_eq!(bit, Bit::One);
}

#[test]
fn bit_and_u8_() {
    let bit = Bit::Zero & 1_u8;
    assert_eq!(bit, Bit::Zero);

    let bit = Bit::One & 0_u8;
    assert_eq!(bit, Bit::Zero);

    let bit = Bit::One & 1_u8;
    assert_eq!(bit, Bit::One);
}

#[test]
fn bit_and_u8_truthy_() {
    // A nonzero integer operand counts as One, whatever its bit pattern.
    assert_eq!(Bit::One & 10_u8, Bit::One);
    assert_eq!(Bit::One | 10_u8, Bit::One);
    assert_eq!(Bit::Zero | 10_u8, Bit::One);
}
