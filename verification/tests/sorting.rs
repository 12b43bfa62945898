use redis_dashboard::message::PublishMessage;
use redis_dashboard::sort::str_lex_le;
use redis_dashboard::sort::SortKey;
use redis_dashboard::table::EntryList;

fn msg(topic: &str, value: &str, time: u64) -> PublishMessage {
    PublishMessage::new(String::from(topic), String::from(value), time)
}

fn topics(list: &EntryList) -> Vec<String> {
    list.entries.iter().map(|e| e.topic.clone()).collect()
}

fn counted(list: &mut EntryList, topic: &str, n: u64) {
    for i in 0..n {
        list.add(&msg(topic, "v", i));
    }
}

#[test]
fn sort_by_count_is_stable_among_equal_counts() {
    let mut list = EntryList::new();
    counted(&mut list, "A", 3);
    counted(&mut list, "B", 1);
    counted(&mut list, "C", 3);
    list.sort_by_key(SortKey::Count);
    // B first (count 1), then A and C (count 3) in their prior relative order
    assert_eq!(topics(&list), vec!["B", "A", "C"]);
}

#[test]
fn sorting_twice_by_the_same_key_changes_nothing() {
    let mut list = EntryList::new();
    counted(&mut list, "gamma", 2);
    counted(&mut list, "alpha", 5);
    counted(&mut list, "beta", 2);
    list.sort_by_key(SortKey::Count);
    let once = topics(&list);
    list.sort_by_key(SortKey::Count);
    assert_eq!(topics(&list), once);
}

#[test]
fn sort_by_topic_is_lexicographic_ascending() {
    let mut list = EntryList::new();
    list.add(&msg("pear", "1", 1));
    list.add(&msg("apple", "2", 2));
    list.add(&msg("orange", "3", 3));
    list.sort_by_key(SortKey::Topic);
    assert_eq!(topics(&list), vec!["apple", "orange", "pear"]);
}

#[test]
fn sort_by_value_and_time() {
    let mut list = EntryList::new();
    list.add(&msg("a", "zz", 30));
    list.add(&msg("b", "aa", 20));
    list.add(&msg("c", "mm", 10));
    list.sort_by_key(SortKey::Value);
    assert_eq!(topics(&list), vec!["b", "c", "a"]);
    list.sort_by_key(SortKey::Time);
    assert_eq!(topics(&list), vec!["c", "b", "a"]);
}

#[test]
fn str_lex_le_orders_by_code_point_with_prefix_first() {
    assert!(str_lex_le("", ""));
    assert!(str_lex_le("", "a"));
    assert!(!str_lex_le("a", ""));
    assert!(str_lex_le("abc", "abd"));
    assert!(!str_lex_le("abd", "abc"));
    assert!(str_lex_le("ab", "abc"));
    assert!(!str_lex_le("abc", "ab"));
    assert!(str_lex_le("abc", "abc"));
    assert!(str_lex_le("Zebra", "apple"));
}
