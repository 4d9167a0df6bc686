use democutter::index_set::ascending;
use democutter::retain::retain_flagged;
use democutter::sorted_map::SortedMap;
use std::collections::BTreeSet;

#[test]
fn ascending_walks_a_set_from_its_smallest_element() {
    let mut set = BTreeSet::new();
    for x in [9u32, 2, 2047, 0, 5] {
        set.insert(x);
    }
    assert_eq!(ascending(&set), vec![0, 2, 5, 9, 2047]);
    assert_eq!(ascending(&BTreeSet::new()), Vec::<u32>::new());
}

#[test]
fn retain_flagged_keeps_the_flagged_elements_in_order() {
    let mut items = vec![10u32, 11, 12, 13, 14];
    retain_flagged(&mut items, &vec![true, false, false, true, true]);
    assert_eq!(items, vec![10, 13, 14]);
}

#[test]
fn retain_flagged_with_no_flag_set_leaves_nothing() {
    let mut items = vec!['a', 'b'];
    retain_flagged(&mut items, &vec![false, false]);
    assert!(items.is_empty());
    let mut none: Vec<char> = Vec::new();
    retain_flagged(&mut none, &Vec::new());
    assert!(none.is_empty());
}

#[test]
fn retain_flagged_with_every_flag_set_changes_nothing() {
    let mut items = vec![3u8, 1, 2];
    retain_flagged(&mut items, &vec![true, true, true]);
    assert_eq!(items, vec![3, 1, 2]);
}

#[test]
fn sorted_map_lists_its_keys_by_ascending_key() {
    let mut map: SortedMap<&str> = SortedMap::new();
    map.insert(7, "seven");
    map.insert(2, "two");
    map.insert(5, "five");
    map.insert(2, "zwei");
    assert_eq!(map.len(), 3);
    assert_eq!(map.keys(), vec![2, 5, 7]);
    assert_eq!(map.get(2), Some(&"zwei"));
    assert_eq!(*map.value(7), "seven");
    assert_eq!(map.get(3), None);
}

#[test]
fn sorted_map_hands_out_what_it_removes() {
    let mut map: SortedMap<u8> = SortedMap::new();
    map.insert(1, 10);
    map.insert(4, 40);
    assert_eq!(map.remove(4), Some(40));
    assert_eq!(map.remove(4), None);
    assert_eq!(map.keys(), vec![1]);
    assert_eq!(map.len(), 1);
}
