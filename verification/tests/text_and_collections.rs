use packs_tui::name_set::NameSet;
use packs_tui::sorting::{reversed, sort_rows, sorts_first, stable_order, SortKey};
use packs_tui::str_map::StrMap;
use packs_tui::tally::Tally;
use packs_tui::text::{compare, contains_text, same, sorts_before, to_chars, Rank};
use std::sync::Arc;

fn key(number: usize, text: &str) -> SortKey {
    SortKey {
        number,
        text: text.to_string(),
    }
}

#[test]
fn names_compare_like_strings() {
    let names = [
        "", ".", "./", "./a", "./a/b", "./ab", "A", "B", "a", "a/", "aa", "ab", "b", "packs/bar",
        "packs/baz", "packs/foo", "é", "éa", "ü", "日本", "😀",
    ];
    for a in names {
        for b in names {
            let expected = if a < b {
                Rank::Before
            } else if a == b {
                Rank::Same
            } else {
                Rank::After
            };
            assert_eq!(compare(a, b), expected);
            assert_eq!(same(a, b), a == b);
            assert_eq!(sorts_before(a, b), a < b);
        }
    }
}

#[test]
fn a_prefix_sorts_before_what_it_begins() {
    assert_eq!(compare("packs", "packs/foo"), Rank::Before);
    assert_eq!(compare("packs/foo", "packs"), Rank::After);
    assert_eq!(compare("packs/foo", "packs/foo"), Rank::Same);
    assert_eq!(compare("", ""), Rank::Same);
    assert_eq!(compare("", "a"), Rank::Before);
    assert_eq!(compare("Z", "a"), Rank::Before);
}

#[test]
fn a_text_is_its_characters() {
    assert_eq!(to_chars("a/é😀"), vec!['a', '/', 'é', '😀']);
    assert_eq!(to_chars(""), Vec::<char>::new());
}

#[test]
fn a_text_holds_its_parts() {
    assert!(contains_text("packs/foo", "foo"));
    assert!(contains_text("packs/foo", "packs/foo"));
    assert!(contains_text("packs/foo", "s/f"));
    assert!(contains_text("packs/foo", ""));
    assert!(contains_text("", ""));
    assert!(!contains_text("", "a"));
    assert!(!contains_text("packs/foo", "packs/foo/"));
    assert!(!contains_text("packs/foo", "fooo"));
    assert!(!contains_text("packs/foo", "Foo"));
    assert!(contains_text("aab", "ab"));
    assert!(contains_text("éü日", "ü"));
    for hay in ["", "a", "abcabc", "aaa", "packs/foo/bar"] {
        for needle in ["", "a", "bc", "abc", "aaaa", "/", "oo/b"] {
            assert_eq!(contains_text(hay, needle), hay.contains(needle));
        }
    }
}

#[test]
fn a_tally_counts_each_name() {
    let mut tally = Tally::new();
    assert!(tally.is_empty());
    assert_eq!(tally.len(), 0);
    assert_eq!(tally.total(), 0);
    assert_eq!(tally.get("privacy"), None);
    assert_eq!(tally.count("privacy"), 0);
    for name in ["privacy", "dependency", "privacy", "privacy", "visibility", "dependency"] {
        tally.increment(name);
    }
    assert!(!tally.is_empty());
    assert_eq!(tally.len(), 3);
    assert_eq!(tally.total(), 6);
    assert_eq!(tally.get("privacy"), Some(&3));
    assert_eq!(tally.get("dependency"), Some(&2));
    assert_eq!(tally.get("visibility"), Some(&1));
    assert_eq!(tally.get("architecture"), None);
    assert_eq!(tally.count("privacy"), 3);
    assert_eq!(tally.count("architecture"), 0);
    let entries: Vec<(String, usize)> = (0..tally.len())
        .map(|i| {
            let (name, count) = tally.entry(i);
            (name.clone(), count)
        })
        .collect();
    assert_eq!(
        entries,
        vec![
            ("privacy".to_string(), 3),
            ("dependency".to_string(), 2),
            ("visibility".to_string(), 1),
        ]
    );
}

#[test]
fn a_name_set_holds_each_name_once_in_order() {
    let mut set = NameSet::new();
    assert!(set.is_empty());
    assert!(set.insert("packs/foo".to_string()));
    assert!(set.insert("packs/bar".to_string()));
    assert!(!set.insert("packs/foo".to_string()));
    assert!(set.insert(".".to_string()));
    assert!(set.insert("packs/baz".to_string()));
    assert!(set.insert("packs".to_string()));
    assert!(!set.insert(".".to_string()));
    assert_eq!(set.len(), 5);
    assert!(!set.is_empty());
    let names: Vec<&str> = (0..set.len()).map(|i| set.get(i).as_str()).collect();
    assert_eq!(
        names,
        vec![".", "packs", "packs/bar", "packs/baz", "packs/foo"]
    );
    assert!(set.contains("packs/bar"));
    assert!(!set.contains("packs/ba"));
    let copy = set.duplicate();
    assert_eq!(copy, set);
}

#[test]
fn a_map_keeps_its_entries_in_the_order_of_insertion() {
    let mut map: StrMap<usize> = StrMap::new();
    assert_eq!(map.len(), 0);
    assert_eq!(map.get("b"), None);
    map.insert_new("b".to_string(), 2);
    map.insert_new("a".to_string(), 1);
    map.insert_new("c".to_string(), 3);
    assert_eq!(map.len(), 3);
    assert_eq!(map.find("a"), Some(1));
    assert_eq!(map.find("d"), None);
    assert!(map.contains_key("c"));
    assert!(!map.contains_key(""));
    assert_eq!(map.get("a"), Some(&1));
    assert_eq!(map.key_at(0), "b");
    assert_eq!(map.value_at(2), &3);
    *map.value_mut(1) = 10;
    assert_eq!(map.get("a"), Some(&10));
    let (keys, values) = map.into_parts();
    assert_eq!(keys, vec!["b", "a", "c"]);
    assert_eq!(values, vec![2, 10, 3]);
    let again = StrMap::from_parts(keys, values);
    assert_eq!(again.get("c"), Some(&3));
}

#[test]
fn keys_are_ordered_by_number_then_name() {
    assert!(sorts_first(&key(1, "z"), &key(2, "a")));
    assert!(!sorts_first(&key(2, "a"), &key(1, "z")));
    assert!(sorts_first(&key(1, "a"), &key(1, "b")));
    assert!(!sorts_first(&key(1, "b"), &key(1, "a")));
    assert!(!sorts_first(&key(1, "a"), &key(1, "a")));
}

#[test]
fn sorting_is_stable() {
    let keys = vec![
        key(2, "b"),
        key(1, "z"),
        key(2, "a"),
        key(1, "z"),
        key(0, ""),
        key(2, "b"),
    ];
    assert_eq!(stable_order(&keys), vec![4, 1, 3, 2, 0, 5]);
    assert_eq!(stable_order(&vec![]), Vec::<usize>::new());
    let rows: Vec<Arc<char>> = "abcdef".chars().map(Arc::new).collect();
    let sorted: String = sort_rows(&rows, &keys, false).iter().map(|c| **c).collect();
    assert_eq!(sorted, "ebdcaf");
    let backwards: String = sort_rows(&rows, &keys, true).iter().map(|c| **c).collect();
    assert_eq!(backwards, "facdbe");
    assert_eq!(reversed(vec![1, 2, 3]), vec![3, 2, 1]);
    assert_eq!(reversed(Vec::<u8>::new()), Vec::<u8>::new());
}
