use actrs::List;
use std::collections::HashMap;

fn to_vec<T: Clone>(list: &List<T>) -> Vec<T> {
    let mut out = Vec::new();
    let mut it = list.iter();
    while let Some(x) = it.next() {
        out.push(x.clone());
    }
    out
}

#[test]
fn clone_shares_elements() {
    let list1 = List::new(42);
    let list2 = list1.clone();
    assert_eq!(list1.hd(), list2.hd());
    assert_eq!(to_vec(&list1), to_vec(&list2));
}

#[test]
fn empty_list_has_no_head() {
    let list: List<i32> = List::empty();
    assert!(list.hd().is_none());
    assert!(list.tl().is_none());
    assert!(list.is_empty());
}

#[test]
fn default_is_empty() {
    let list: List<i32> = List::default();
    assert!(list.is_empty());
}

#[test]
fn new_holds_one_element() {
    let list = List::new(42);
    assert_eq!(list.hd(), Some(&42));
    assert!(!list.is_empty());
    assert!(list.tl().unwrap().is_empty());
}

#[test]
fn cons_puts_element_in_front() {
    let list1 = List::new(2);
    let list2 = List::cons(1, &list1);
    assert_eq!(list2.hd(), Some(&1));
    assert_eq!(list2.tl().unwrap().hd(), Some(&2));
    // the tail is the old list, which is unchanged
    assert_eq!(to_vec(&list1), vec![2]);
    assert_eq!(to_vec(&list2), vec![1, 2]);
}

#[test]
fn prepend_builds_in_reverse_call_order() {
    let list = List::new(1).prepend(5).prepend(10);
    assert_eq!(to_vec(&list), vec![10, 5, 1]);
}

#[test]
fn iter_yields_elements_in_order() {
    let list = List::cons(1, &List::new(2));
    let mut iter = list.iter();
    assert_eq!(iter.next(), Some(&1));
    assert_eq!(iter.next(), Some(&2));
    assert_eq!(iter.next(), None);
    assert_eq!(iter.next(), None);
}

#[test]
fn iter_count_and_nth() {
    let list = List::from_vec(vec![7, 8, 9]);
    assert_eq!(list.iter().count(), 3);
    assert_eq!(List::<i32>::empty().iter().count(), 0);
    assert_eq!(list.iter().nth(0), Some(&7));
    assert_eq!(list.iter().nth(2), Some(&9));
    assert_eq!(list.iter().nth(3), None);
    let mut it = list.iter();
    assert_eq!(it.nth(1), Some(&8));
    assert_eq!(it.next(), Some(&9));
    assert!(it.is_done());
}

#[test]
fn reverse_reverses() {
    let list = List::cons(1, &List::new(2));
    let reversed = list.reverse();
    assert_eq!(reversed.hd(), Some(&2));
    assert_eq!(reversed.tl().unwrap().hd(), Some(&1));
}

#[test]
fn reverse_twice_gives_the_list_back() {
    let list = List::from_vec(vec![1, 2, 3, 4]);
    assert_eq!(to_vec(&list.reverse()), vec![4, 3, 2, 1]);
    assert_eq!(to_vec(&list.reverse().reverse()), vec![1, 2, 3, 4]);
    assert!(List::<i32>::empty().reverse().is_empty());
}

#[test]
fn from_vec_keeps_order() {
    let list: List<i32> = List::from_vec(vec![1, 2, 3]);
    assert_eq!(list.hd(), Some(&1));
    assert_eq!(list.tl().unwrap().hd(), Some(&2));
    assert_eq!(to_vec(&list), vec![1, 2, 3]);
}

#[test]
fn lists_compare_elementwise() {
    assert!(List::from_vec(vec![1, 2]) == List::cons(1, &List::new(2)));
    assert!(List::from_vec(vec![1, 2]) != List::from_vec(vec![1, 2, 3]));
    assert!(List::from_vec(vec![1, 3]) != List::from_vec(vec![1, 2]));
    assert!(List::<i32>::empty() == List::empty());
}

#[derive(PartialEq, Clone, Debug)]
enum Key {
    A,
    B,
}

#[test]
fn get_value_finds_first_pair() {
    let list = List::new((Key::B, 2)).prepend((Key::A, 1));
    assert_eq!(list.get_value(&Key::A), Some(&1));
    assert_eq!(list.get_value(&Key::B), Some(&2));
    let shadowed = List::new((Key::A, 3)).prepend((Key::A, 1));
    assert_eq!(shadowed.get_value(&Key::A), Some(&1));
    assert_eq!(shadowed.get_value(&Key::B), None);
}

#[test]
fn get_values_lists_all_matches() {
    let list = List::empty().prepend((Key::A, 3)).prepend((Key::B, 2)).prepend((Key::A, 1));
    let values = list.get_values(&Key::A);
    assert_eq!(to_vec(&values), vec![&1, &3]);
    assert!(list.get_values(&Key::B).tl().unwrap().is_empty());
}

#[test]
fn delete_removes_every_pair_with_key() {
    let list = List::empty().prepend((Key::A, 3)).prepend((Key::B, 2)).prepend((Key::A, 1));
    let deleted = list.delete(&Key::A);
    assert_eq!(to_vec(&deleted), vec![(Key::B, 2)]);
    // the original list is unchanged
    assert_eq!(to_vec(&list).len(), 3);
    assert!(list.delete(&Key::B).get_value(&Key::B).is_none());
}

#[test]
fn to_map_keeps_last_pair() {
    let list = List::new(("a", 3)).prepend(("b", 2)).prepend(("a", 1));
    let map = list.to_map();
    assert_eq!(map.get("a"), Some(&3));
    assert_eq!(map.get("b"), Some(&2));
    assert_eq!(map.len(), 2);
}

#[test]
fn from_map_lists_every_entry() {
    let mut map = HashMap::new();
    map.insert("a", 1);
    map.insert("b", 2);
    let list = List::from_map(map.clone());
    assert_eq!(list.get_value(&"a"), Some(&1));
    assert_eq!(list.get_value(&"b"), Some(&2));
    assert_eq!(list.iter().count(), 2);
    assert_eq!(list.to_map(), map);
}

#[test]
fn from_map_of_empty_map_is_empty() {
    let map: HashMap<u64, u64> = HashMap::new();
    assert!(List::from_map(map).is_empty());
}
