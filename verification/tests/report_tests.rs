use actrs::report::{sort_entries, SortKey};

#[test]
fn sort_entries_by_integer_key_is_stable() {
    let v = vec![(3u16, 'a'), (1, 'b'), (3, 'c'), (2, 'd'), (1, 'e')];
    assert_eq!(sort_entries(v), vec![(1, 'b'), (1, 'e'), (2, 'd'), (3, 'a'), (3, 'c')]);
    let empty: Vec<(usize, u8)> = vec![];
    assert!(sort_entries(empty).is_empty());
}

#[test]
fn sort_entries_by_text_matches_string_order() {
    let words = ["b", "a", "ab", "", "é", "z", "aa", "Z", "日本"];
    let v: Vec<(String, usize)> = words.iter().enumerate().map(|(i, w)| (w.to_string(), i)).collect();
    let sorted: Vec<String> = sort_entries(v).into_iter().map(|(w, _)| w).collect();
    let mut expected: Vec<String> = words.iter().map(|w| w.to_string()).collect();
    expected.sort();
    assert_eq!(sorted, expected);
}

#[test]
fn text_comparison() {
    assert!("abc".to_string().at_most(&"abd".to_string()));
    assert!("ab".to_string().at_most(&"abc".to_string()));
    assert!(!"abc".to_string().at_most(&"ab".to_string()));
    assert!("".to_string().at_most(&"".to_string()));
    assert!("a".to_string().at_most(&"é".to_string()));
    assert!(5u16.at_most(&5u16));
    assert!(!6usize.at_most(&5usize));
}
