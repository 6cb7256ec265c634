use aabel::counted_bag::CountedBag;

#[test]
fn len_() {
    let mut cs = CountedBag::<char>::new();
    let x = cs.insert('a');
    assert_eq!(x, 1);

    let x = cs.insert('b');
    assert_eq!(x, 1);

    assert_eq!(2, cs.len());
}

#[test]
fn is_empty_() {
    let mut cs = CountedBag::<char>::new();
    assert!(cs.is_empty());

    let _x = cs.insert('a');
    assert!(!cs.is_empty());
}

#[test]
fn keys_() {
    let mut cs = CountedBag::<char>::new();
    cs.insert('a');
    cs.insert('b');

    let mut c = 0;
    for key in cs.keys() {
        println!("{key}");
        c += 1;
    }

    assert_eq!(c, 2);
}

#[test]
fn total_() {
    let mut cs = CountedBag::<char>::new();
    cs.insert('a');
    cs.insert('b');
    cs.insert('a');
    assert_eq!(cs.total(), 3);
}

#[test]
fn get_() {
    let mut cs = CountedBag::<char>::new();
    let x = cs.insert('a');
    assert_eq!(x, 1);

    let x = cs.insert('b');
    assert_eq!(x, 1);

    let x = cs.get(&'a');
    assert_eq!(x, Some(&1));
}

#[test]
fn insert_() {
    let mut cs = CountedBag::<char>::new();
    let x = cs.insert('a');
    assert_eq!(x, 1);

    let x = cs.insert('b');
    assert_eq!(x, 1);

    let x = cs.insert('a');
    assert_eq!(x, 2);
}

#[test]
fn from_iter_() {
    let xs = vec![('a', 2), ('b', 1)];
    let cs = CountedBag::<char>::from_iter(xs);
    assert_eq!(cs.get(&'a'), Some(&2));
    assert_eq!(cs.get(&'b'), Some(&1));
    assert_eq!(cs.total(), 3);
}

#[test]
fn iter_() {
    let xs = vec![('a', 2), ('b', 1)];
    let cs = CountedBag::<char>::from_iter(xs);

    let mut iter = cs.iter();
    let mut count = 0;
    while let Some(_) = iter.next() {
        count += 1;
    }
    assert_eq!(count, 2);
}

#[test]
fn clone_() {
    let xs = vec![('a', 2), ('b', 1)];
    let cs = CountedBag::<char>::from_iter(xs);

    let mut iter = cs.iter().clone();
    let mut count = 0;
    while let Some(_) = iter.next() {
        count += 1;
    }
    assert_eq!(count, 2);
}

#[test]
fn counted_bag_debug_() {
    let xs = vec![('a', 2), ('b', 1)];
    let cs = CountedBag::<char>::from_iter(xs);
    let s = format!("{:#?}", cs.iter());
    assert!(!s.is_empty())
}

#[test]
fn into_iter_() {
    let xs = vec![('a', 2), ('b', 1)];
    let cs = CountedBag::<char>::from_iter(xs);

    let mut iter = cs.into_iter();
    let mut vec: Vec<(char, u32)> = Vec::new();
    while let Some(e) = iter.next() {
        vec.push(e);
    }
    assert_eq!(vec.len(), 2);
}

#[test]
fn into_iter_1_() {
    let xs = vec![('a', 2), ('b', 1)];
    let cs = CountedBag::<char>::from_iter(xs);

    let mut iter = cs.iter();
    let mut vec: Vec<(char, u32)> = Vec::new();
    while let Some(e) = iter.next() {
        vec.push(e);
    }
    assert_eq!(vec.len(), 2);
}

#[test]
fn from_arr_() {
    let xs = vec![('a', 2), ('b', 1)];
    let cs = CountedBag::<char>::from_iter(xs);

    let mut iter = cs.into_iter();
    let mut vec: Vec<(char, u32)> = Vec::new();
    while let Some(e) = iter.next() {
        vec.push(e);
    }
    assert_eq!(vec.len(), 2);
}

#[test]
fn from_keys() {
    let cs = CountedBag::<char>::from_keys(vec!['a', 'b', 'a', 'a', 'c', 'b']);
    let v = cs.get(&'a');
    assert_eq!(v, Some(&3));
}

#[test]
fn intersection_() {
    let xs = vec![('a', 2), ('b', 1), ('x', 10)];
    let xs = CountedBag::<char>::from_iter(xs);

    let ys = vec![('a', 1), ('b', 1), ('c', 20)];
    let ys = CountedBag::<char>::from_iter(ys);

    let mut intersection = xs.intersection(&ys);
    let mut count = 0;
    while let Some(_) = intersection.next() {
        count += 1;
    }
    assert_eq!(count, 2);
}

#[test]
fn intersection_1_() {
    let xs = vec![('a', 2), ('b', 1), ('x', 10)];
    let xs = CountedBag::<char>::from_iter(xs);

    let ys = vec![('a', 1), ('b', 1), ('c', 20), ('d', 30)];
    let ys = CountedBag::<char>::from_iter(ys);

    let mut intersection = xs.intersection(&ys);
    let mut count = 0;
    while let Some(_) = intersection.next() {
        count += 1;
    }
    assert_eq!(count, 2);
}

#[test]
fn intersection_2_() {
    let xs = vec![('a', 1), ('b', 1), ('c', 20), ('d', 30)];
    let xs = CountedBag::<char>::from_iter(xs);

    let ys = vec![('a', 2), ('b', 1), ('x', 10)];
    let ys = CountedBag::<char>::from_iter(ys);

    let mut intersection = xs.intersection(&ys);
    let mut count = 0;
    while let Some(_) = intersection.next() {
        count += 1;
    }
    assert_eq!(count, 2);
}

#[test]
fn intersection_clone_() {
    let xs = vec![('a', 2), ('b', 1), ('x', 10)];
    let xs = CountedBag::<char>::from_iter(xs);

    let ys = vec![('a', 1), ('b', 1), ('c', 20)];
    let ys = CountedBag::<char>::from_iter(ys);

    let mut intersection = xs.intersection(&ys).clone();
    let mut count = 0;
    while let Some(_) = intersection.next() {
        count += 1;
    }
    assert_eq!(count, 2);
}

#[test]
fn intersection_counted_bag() {
    let xs = vec![('a', 2), ('b', 1), ('x', 10)];
    let xs = CountedBag::<char>::from_iter(xs);

    let ys = vec![('a', 1), ('b', 1), ('c', 20)];
    let ys = CountedBag::<char>::from_iter(ys);

    let mut intersection = xs.intersection(&ys);
    let mut pairs: Vec<(char, u32)> = Vec::new();
    while let Some(e) = intersection.next() {
        pairs.push(e);
    }
    let intersection = CountedBag::<char>::from_iter(pairs);
    assert_eq!(intersection.total(), 2);
}

#[test]
fn from_iter_largest_count_() {
    // A single count at the numeric ceiling still fits the running total.
    let cs = CountedBag::<char>::from_iter(vec![('a', u32::MAX)]);
    assert_eq!(cs.total(), u32::MAX);
    assert_eq!(cs.get(&'a'), Some(&u32::MAX));
}
