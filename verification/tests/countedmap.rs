use aabel::FromKeys;
use aabel::FromKeysAndValues;
use aabel::collections::CountedMap;

#[test]
fn from_keys_() {
    let keys = vec!["a", "b", "c", "a"];
    let cmap = CountedMap::<&str>::from_keys(keys);

    assert_eq!(cmap.len(), 3);
    assert!(!cmap.is_empty());
    assert_eq!(cmap.get(&"a"), Some(&2));
    assert_eq!(cmap.get(&"b"), Some(&1));
    assert_eq!(cmap.get(&"c"), Some(&1));
    assert_eq!(cmap.total(), &4);

    println!("CMAP: {:?}", &cmap);
}

#[test]
fn from_kesy_and_values_() {
    let kvs = vec![("a", 2), ("b", 1), ("c", 1)];
    let cmap = CountedMap::<&str>::from_keys_and_values(kvs);

    assert_eq!(cmap.len(), 3);
    assert_eq!(cmap.get(&"a"), Some(&2));
    assert_eq!(cmap.get(&"b"), Some(&1));
    assert_eq!(cmap.get(&"c"), Some(&1));
    assert_eq!(cmap.total(), &4);
}

#[test]
fn common_() {
    let xs = CountedMap::<&str>::from_keys_and_values(vec![("a", 3), ("b", 1)]);
    let ys = CountedMap::<&str>::from_keys_and_values(vec![("a", 2), ("b", 2), ("c", 1)]);
    let cmn = xs.common(&ys);

    assert_eq!(cmn.len(), 2);
    assert_eq!(cmn.get(&"a"), Some(&2));
    assert_eq!(cmn.get(&"b"), Some(&1));
    assert_eq!(cmn.get(&"c"), None);
    assert_eq!(cmn.total(), &3);
}

#[test]
fn countedmap_insert_() {
    let mut cmap = CountedMap::<u64>::new();
    assert_eq!(cmap.insert(5), Some(1));
    assert_eq!(cmap.insert(7), Some(1));
    assert_eq!(cmap.insert(5), Some(2));
    assert_eq!(cmap.total(), &3);
    assert_eq!(cmap.len(), 2);
}

#[test]
fn countedmap_iter_() {
    let cmap = CountedMap::<&str>::from_keys(vec!["a", "b", "a"]);
    let pairs = cmap.iter();
    assert_eq!(pairs, vec![("a", 2), ("b", 1)]);
}
