use aabel::collections::shingles::shingles;

#[test]
fn shingles_shingles_all_() {
    let text = "A spokeperson for the Sudzo Corporation revealed today that studies have shown it is good for people to buy Sudzo products".split_whitespace().collect::<Vec<&str>>();

    let pred = |_: &&str| true;

    let mut ss = shingles(text.as_slice(), 3, pred);
    assert_eq!(Some(["A", "spokeperson", "for"].as_slice()), ss.next());
    assert_eq!(Some(["spokeperson", "for", "the"].as_slice()), ss.next());
    assert_eq!(Some(["for", "the", "Sudzo"].as_slice()), ss.next());
}

#[test]
fn shingles_singles_words_() {
    let text = "A spokeperson for the Sudzo Corporation revealed today that studies have shown it is good for people to buy Sudzo products".split_whitespace().collect::<Vec<&str>>();

    let words = ["A", "for", "the", "to", "that"].as_slice();
    let pred = |w: &&str| words.contains(w);

    let mut ss = shingles(text.as_slice(), 3, pred);
    assert_eq!(Some(["A", "spokeperson", "for"].as_slice()), ss.next());
    assert_eq!(Some(["for", "the", "Sudzo"].as_slice()), ss.next());
    assert_eq!(Some(["the", "Sudzo", "Corporation"].as_slice()), ss.next());
}
