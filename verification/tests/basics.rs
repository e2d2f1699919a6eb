use paqus_node::key_map::KeyMap;
use paqus_node::order::{Pair, Rank, Reversed, Sortable};
use paqus_node::sorted_map::SortedMap;
use paqus_node::text::{decimal, find_part, rank_texts, sorted_texts, starts_with_part};

#[test]
fn keys_have_a_total_order() {
    assert_eq!(1u64.rank(&2), Rank::Before);
    assert_eq!(true.rank(&false), Rank::After);
    assert_eq!([1u8, 2].rank(&[1, 3]), Rank::Before);
    assert_eq!(Pair(1u64, 9u64).rank(&Pair(1, 9)), Rank::Same);
    assert_eq!(Pair(1u64, 9u64).rank(&Pair(2, 0)), Rank::Before);
    assert_eq!(Reversed(1u64).rank(&Reversed(2)), Rank::After);
}

#[test]
fn maps_stay_sorted() {
    let mut map: SortedMap<u64, &str> = SortedMap::new();
    map.insert(5, "five");
    map.insert(1, "one");
    map.insert(5, "FIVE");
    assert_eq!(map.len(), 2);
    assert_eq!(map.key_at(0), 1);
    assert_eq!(map.lower_bound(&2), 1);
    assert_eq!(map.get(&5), Some(&"FIVE"));
    assert!(!map.contains_key(&4));
    assert_eq!(map.remove(&1), Some("one"));
    assert_eq!(map.remove(&1), None);
    assert_eq!(map.pop_last(), Some((5, "FIVE")));
    assert_eq!(map.pop_last(), None);
}

#[test]
fn byte_strings_are_keys() {
    let mut map: KeyMap<u8> = KeyMap::new();
    map.insert_new(vec![1, 2], 7);
    assert_eq!(map.get(&[1, 2]), Some(&7));
    assert_eq!(map.get(&[1]), None);
    assert_eq!(map.len(), 1);
}

#[test]
fn numbers_are_written_in_decimal() {
    assert_eq!(decimal(0), "0");
    assert_eq!(decimal(10), "10");
    assert_eq!(decimal(u64::MAX), u64::MAX.to_string());
}

#[test]
fn texts_are_searched_and_sorted() {
    assert_eq!(find_part("abcabc", "ca"), Some(2));
    assert_eq!(find_part("abc", "x"), None);
    assert_eq!(find_part("abc", ""), Some(0));
    assert!(starts_with_part("abc", "ab"));
    assert!(!starts_with_part("a", "ab"));
    assert_eq!(rank_texts("a", "ab"), Rank::Before);
    assert_eq!(rank_texts("ä", "z"), Rank::After);
    let texts = ["b", "a", "b"].iter().map(|t| t.to_string()).collect();
    assert_eq!(sorted_texts(texts), vec!["a", "b"]);
}
