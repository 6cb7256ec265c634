use aabel::collections::Permutations;

#[test]
fn permutations_() {
    let xs = vec![1, 2, 3, 4];
    let mut permutations = Permutations::new(4, xs);

    let results = permutations.generate();
    assert_eq!(24, results.len());

    // The first arrangement is the starting one.
    assert_eq!(results[0], vec![1, 2, 3, 4]);

    let res = &results[0];
    println!("ARR: {res:?}");
}

#[test]
fn permutations_small_() {
    // 0! == 1, 1! == 1, 2! == 2, 3! == 6.
    let mut p = Permutations::<i32>::new(0, vec![]);
    assert_eq!(1, p.generate().len());

    let mut p = Permutations::new(1, vec![7]);
    assert_eq!(1, p.generate().len());

    let mut p = Permutations::new(2, vec![1, 2]);
    let rs = p.generate();
    assert_eq!(2, rs.len());

    let mut p = Permutations::new(3, vec![1, 2, 3]);
    assert_eq!(6, p.generate().len());
}

#[test]
fn permutations_rearrange_only_() {
    // Every result holds the same elements as the data, rearranged.
    let mut p = Permutations::new(3, vec![5, 6, 7]);
    for r in p.generate() {
        let mut sorted = r.clone();
        sorted.sort();
        assert_eq!(sorted, vec![5, 6, 7]);
    }
}
