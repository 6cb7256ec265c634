use aabel::counted_bag::CountedBag;
use aabel::distances::hamming;
use aabel::distances::jaccard;

#[test]
fn hamming_hamming_() {
    let xys = [
        ('k', 'k'),
        ('a', 'a'),
        ('r', 't'),
        ('o', 'h'),
        ('l', 'r'),
        ('i', 'i'),
        ('n', 'n'),
    ];
    let it = hamming(&xys);
    assert_eq!(3, it)
}

#[test]
fn hamming_empty_() {
    let xys: [(u8, u8); 0] = [];
    assert_eq!(0, hamming(&xys));
}

#[test]
fn hamming_bytes_() {
    let xs = "karolin".as_bytes();
    let ys = "kathrin".as_bytes();
    let pairs: Vec<(u8, u8)> = xs.iter().copied().zip(ys.iter().copied()).collect();
    assert_eq!(3, hamming(&pairs));
}

#[test]
fn jaccard_ratio_() {
    let xs = vec![('a', 1), ('b', 2), ('c', 3)];
    let xs = CountedBag::<char>::from_iter(xs);

    let ys = vec![('b', 1), ('c', 2), ('d', 3)];
    let ys = CountedBag::<char>::from_iter(ys);

    let j = jaccard(&xs, &ys);
    assert_eq!(j.numer, 3);
    assert_eq!(j.denom, 12);
    assert_eq!(j.numer as f32 / j.denom as f32, 0.25);
}

#[test]
fn jaccard_jaccard_() {
    let xs = vec![("a", 3), ("b", 1)];
    let xs = CountedBag::<&str>::from_iter(xs);

    let ys = vec![("a", 2), ("b", 2), ("c", 1)];
    let ys = CountedBag::<&str>::from_iter(ys);

    let j = jaccard(&xs, &ys);
    assert_eq!(j.numer, 3);
    assert_eq!(j.denom, 9);
    assert_eq!(j.numer as f32 / j.denom as f32, 1. / 3.);
}
