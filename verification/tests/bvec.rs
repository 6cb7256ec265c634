use aabel::bits::BVec;
use aabel::bits::Bit;

#[test]
fn with_length_() {
    let bvec = BVec::with_length(10);
    assert_eq!(10, bvec.len());
    assert_eq!(2, bvec.storage_len());
}

#[test]
fn with_length_zeroes_() {
    // Every bit of a fresh vector reads as Zero.
    let bvec = BVec::with_length(21);
    assert_eq!(21, bvec.len());
    for i in 0..21 {
        assert_eq!(bvec.get_bit(i), Bit::Zero);
    }
}

#[test]
fn bvec_set_bit_() {
    let mut bvec = BVec::with_length(10);
    bvec.set_bit(4);
    bvec.set_bit(6);
    assert_eq!(10, bvec.byte_at(0));
}

#[test]
fn bvec_reset_bit_() {
    let mut bvec = BVec::with_length(10);
    bvec.set_bit(4);
    bvec.set_bit(6);
    assert_eq!(10, bvec.byte_at(0));

    bvec.reset_bit(6);
    assert_eq!(8, bvec.byte_at(0));
}

#[test]
fn bvec_get_bit_() {
    let mut bvec = BVec::with_length(10);
    bvec.set_bit(4);
    bvec.set_bit(6);

    assert_eq!(bvec.get_bit(0), Bit::Zero);
    assert_eq!(bvec.get_bit(4), Bit::One);
}

#[test]
fn bvec_scenario_() {
    // Setting bits 4 and 6 of a ten-bit vector leaves every other bit Zero.
    let mut bvec = BVec::with_length(10);
    bvec.set_bit(4);
    bvec.set_bit(6);

    for i in 0..10 {
        let expected = if i == 4 || i == 6 { Bit::One } else { Bit::Zero };
        assert_eq!(bvec.get_bit(i), expected);
    }
}

#[test]
fn bvec_toggle_bit_() {
    let mut bvec = BVec::with_length(10);
    bvec.toggle_bit(4);
    bvec.toggle_bit(6);

    assert_eq!(10, bvec.byte_at(0));
}

#[test]
fn bvec_into_iter_() {
    let mut bvec = BVec::with_length(10);
    bvec.toggle_bit(4);
    bvec.toggle_bit(6);

    let mut iter = bvec.into_iter();

    assert_eq!(iter.next(), Some(Bit::Zero));
    assert_eq!(iter.next(), Some(Bit::Zero));
    assert_eq!(iter.next(), Some(Bit::Zero));
    assert_eq!(iter.next(), Some(Bit::Zero));

    assert_eq!(iter.next(), Some(Bit::One));
    assert_eq!(iter.next(), Some(Bit::Zero));
    assert_eq!(iter.next(), Some(Bit::One));
    assert_eq!(iter.next(), Some(Bit::Zero));

    assert_eq!(iter.next(), Some(Bit::Zero));
    assert_eq!(iter.next(), Some(Bit::Zero));

    assert_eq!(iter.next(), None);
}

#[test]
fn extend_() {
    let mut bvec = BVec::with_length(0);
    assert_eq!(0, bvec.len());
    assert_eq!(0, bvec.storage_len());

    let elements = [Bit::One, Bit::Zero, Bit::One, Bit::Zero];
    bvec.extend(&elements);

    assert_eq!(4, bvec.len());
    assert_eq!(bvec.get_bit(0), Bit::One);
    assert_eq!(bvec.get_bit(1), Bit::Zero);
    assert_eq!(bvec.get_bit(2), Bit::One);
    assert_eq!(bvec.get_bit(3), Bit::Zero);

    let elements = [Bit::Zero, Bit::Zero, Bit::Zero, Bit::One];
    bvec.extend(&elements);

    assert_eq!(8, bvec.len());
    assert_eq!(bvec.get_bit(4), Bit::Zero);
    assert_eq!(bvec.get_bit(5), Bit::Zero);
    assert_eq!(bvec.get_bit(6), Bit::Zero);
    assert_eq!(bvec.get_bit(7), Bit::One);

    let elements = [Bit::One, Bit::Zero, Bit::One, Bit::Zero];
    bvec.extend(&elements);

    assert_eq!(12, bvec.len());
    assert_eq!(bvec.get_bit(8), Bit::One);
    assert_eq!(bvec.get_bit(9), Bit::Zero);
    assert_eq!(bvec.get_bit(10), Bit::One);
    assert_eq!(bvec.get_bit(11), Bit::Zero);
}

#[test]
fn extend_read_back_() {
    // Three extensions in a row read back exactly in order.
    let mut bvec = BVec::with_length(0);
    bvec.extend(&[Bit::One, Bit::Zero, Bit::One, Bit::Zero]);
    bvec.extend(&[Bit::Zero, Bit::Zero, Bit::Zero, Bit::One]);
    bvec.extend(&[Bit::One, Bit::Zero, Bit::One, Bit::Zero]);

    assert_eq!(12, bvec.len());
    let expected = [1, 0, 1, 0, 0, 0, 0, 1, 1, 0, 1, 0];
    for (i, x) in expected.iter().enumerate() {
        assert_eq!(bvec.get_bit(i), Bit::from(*x as u8));
    }
}

#[test]
fn extend_nonempty_start_() {
    // Extension appends after the existing bits, across a byte boundary.
    let mut bvec = BVec::with_length(7);
    bvec.set_bit(3);
    bvec.extend(&[Bit::One, Bit::One, Bit::Zero]);

    assert_eq!(10, bvec.len());
    assert_eq!(bvec.get_bit(3), Bit::One);
    assert_eq!(bvec.get_bit(6), Bit::Zero);
    assert_eq!(bvec.get_bit(7), Bit::One);
    assert_eq!(bvec.get_bit(8), Bit::One);
    assert_eq!(bvec.get_bit(9), Bit::Zero);
}
