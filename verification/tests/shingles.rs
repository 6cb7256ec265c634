use aabel::shingles::shingles;

#[test]
fn shingles_all_() {
    let source = vec![1, 2, 3];
    let pred = |_: &i32| true;

    let mut ss = shingles(source.as_slice(), 2, pred);

    assert_eq!(Some([1, 2].as_slice()), ss.next());
    assert_eq!(Some([2, 3].as_slice()), ss.next());
    assert_eq!(None, ss.next());
}

#[test]
fn singles_words_() {
    let text = "A spokeperson for the Sudzo Corporation \
        revealed today that studies have shown it is good for people \
        to buy Sudzo products"
        .split_whitespace()
        .collect::<Vec<&str>>();

    let stop_words = ["A", "for", "the", "to", "that"].as_slice();
    let is_stop_word = |w: &&str| stop_words.contains(w);

    let mut ss = shingles(text.as_slice(), 3, is_stop_word);
    assert_eq!(Some(["A", "spokeperson", "for"].as_slice()), ss.next());
    assert_eq!(Some(["for", "the", "Sudzo"].as_slice()), ss.next());
    assert_eq!(Some(["the", "Sudzo", "Corporation"].as_slice()), ss.next());
}

#[test]
fn shingles_too_short_() {
    // A window longer than the slice yields nothing at all.
    let source = vec![1, 2, 3];
    let pred = |_: &i32| true;
    let mut ss = shingles(source.as_slice(), 4, pred);
    assert_eq!(None, ss.next());
}
