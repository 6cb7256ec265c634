use aabel::bits::Bit;
use aabel::bits::Byte;

#[test]
fn byte_debug_() {
    let byte = Byte::from(10);
    println!("byte: {byte:?}");
}

#[test]
fn byte_eq_() {
    assert_eq!(Byte::from(10), Byte::from(10));
    assert_ne!(Byte::from(10), Byte::from(8));
}

#[test]
fn ord_() {
    assert!(Byte::from(8) < Byte::from(10));
}

#[test]
fn u8_from_byte_() {
    let x: u8 = Byte::from(10).into();
    assert_eq!(10, x);
}

#[test]
fn byte_from_u8s_() {
    let xs = [0, 0, 0, 0, 1, 0, 1, 0];
    let byte = Byte::from_u8s(&xs);
    assert_eq!(byte, 10_u8.into());
}

#[test]
fn byte_from_bools_() {
    let xs = [false, false, false, false, true, false, true, false];
    let byte = Byte::from_bools(&xs);
    assert_eq!(byte, 10_u8.into());
}

#[test]
fn byte_from_bits_() {
    let xs = [
        Bit::Zero,
        Bit::Zero,
        Bit::Zero,
        Bit::Zero,
        Bit::One,
        Bit::Zero,
        Bit::One,
        Bit::Zero,
    ];
    let byte = Byte::from_bits(&xs);
    assert_eq!(byte, 10_u8.into());
}

#[test]
fn byte_from_short_sequence_() {
    // A shortfall leaves the trailing offsets clear: [1] builds 1000_0000.
    let byte = Byte::from_u8s(&[1]);
    assert_eq!(byte, 128_u8.into());
}

#[test]
fn byte_from_long_sequence_() {
    // Items beyond the eighth are ignored.
    let xs = [0, 0, 0, 0, 1, 0, 1, 0, 1, 1, 1];
    let byte = Byte::from_u8s(&xs);
    assert_eq!(byte, 10_u8.into());
}

#[test]
fn is_zero_() {
    assert!(Byte::from(0).is_zero());
    assert!(!Byte::from(10).is_zero());
}

#[test]
fn is_one_() {
    assert!(Byte::from(1).is_one());
    assert!(!Byte::from(10).is_one());
}

#[test]
fn byte_get_bit_() {
    let byte = Byte::from(10);
    assert_eq!(byte.get_bit(0), Bit::Zero);
    assert_eq!(byte.get_bit(4), Bit::One);
}

#[test]
fn byte_set_bit_() {
    let byte = Byte::from(10);
    let byte = byte.set_bit(7);
    assert_eq!(byte, 11.into());
}

#[test]
fn byte_reset_bit_() {
    let byte = Byte::from(10);
    let byte = byte.reset_bit(6);
    assert_eq!(byte, 8.into());
}

#[test]
fn byte_toggle_bit_() {
    let byte = Byte::from(10);
    let byte = byte.toggle_bit(6);
    assert_eq!(byte, 8.into());
}

#[test]
fn byte_set_then_get_() {
    // Forcing a bit to 1 or to 0 is what a later read observes, whatever the
    // byte held before.
    for v in 0..=255_u8 {
        for o in 0..8_u8 {
            assert_eq!(Byte::from(v).set_bit(o).get_bit(o), Bit::One);
            assert_eq!(Byte::from(v).reset_bit(o).get_bit(o), Bit::Zero);
        }
    }
}

#[test]
fn byte_toggle_twice_() {
    // Flipping the same bit twice returns the original byte.
    for v in 0..=255_u8 {
        for o in 0..8_u8 {
            assert_eq!(Byte::from(v).toggle_bit(o).toggle_bit(o), Byte::from(v));
        }
    }
}

#[test]
fn byte_toggle_changes_bit_() {
    for v in 0..=255_u8 {
        for o in 0..8_u8 {
            assert_ne!(Byte::from(v).get_bit(o), Byte::from(v).toggle_bit(o).get_bit(o));
        }
    }
}

#[test]
fn byte_set_preserves_others_() {
    // Setting one offset never changes what any other offset reads.
    for v in [0_u8, 10, 85, 170, 255] {
        for o in 0..8_u8 {
            let upd = Byte::from(v).set_bit(o);
            for other in 0..8_u8 {
                if other != o {
                    assert_eq!(upd.get_bit(other), Byte::from(v).get_bit(other));
                }
            }
        }
    }
}

#[test]
fn byte_iter_() {
    let byte = Byte::from(10);
    let mut iter = byte.iter();

    assert_eq!(iter.next(), Some(Bit::Zero));
    assert_eq!(iter.next(), Some(Bit::Zero));
    assert_eq!(iter.next(), Some(Bit::Zero));
    assert_eq!(iter.next(), Some(Bit::Zero));

    assert_eq!(iter.next(), Some(Bit::One));
    assert_eq!(iter.next(), Some(Bit::Zero));
    assert_eq!(iter.next(), Some(Bit::One));
    assert_eq!(iter.next(), Some(Bit::Zero));

    assert_eq!(iter.next(), None);
}

#[test]
fn byte_into_iter_() {
    let byte = Byte::from(10);
    let mut iter = byte.into_iter();

    assert_eq!(iter.next(), Some(Bit::Zero));
    assert_eq!(iter.next(), Some(Bit::Zero));
    assert_eq!(iter.next(), Some(Bit::Zero));
    assert_eq!(iter.next(), Some(Bit::Zero));

    assert_eq!(iter.next(), Some(Bit::One));
    assert_eq!(iter.next(), Some(Bit::Zero));
    assert_eq!(iter.next(), Some(Bit::One));
    assert_eq!(iter.next(), Some(Bit::Zero));

    assert_eq!(iter.next(), None);
}
