use redis_dashboard::message::PublishMessage;
use redis_dashboard::table::EntryList;

fn msg(topic: &str, value: &str, time: u64) -> PublishMessage {
    PublishMessage::new(String::from(topic), String::from(value), time)
}

#[test]
fn first_message_creates_entry_with_count_one() {
    let mut list = EntryList::new();
    list.add(&msg("sensors/a", "1.5", 10));
    assert_eq!(list.entries.len(), 1);
    assert_eq!(list.entries[0].topic, "sensors/a");
    assert_eq!(list.entries[0].value, "1.5");
    assert_eq!(list.entries[0].time, 10);
    assert_eq!(list.entries[0].count, 1);
}

#[test]
fn dedup_one_entry_per_topic_with_exact_counts() {
    let mut list = EntryList::new();
    list.add(&msg("a", "1", 1));
    list.add(&msg("b", "2", 2));
    list.add(&msg("a", "3", 3));
    list.add(&msg("c", "4", 4));
    list.add(&msg("a", "5", 5));
    list.add(&msg("b", "6", 6));
    assert_eq!(list.entries.len(), 3);
    assert_eq!(list.entries[0].topic, "a");
    assert_eq!(list.entries[0].count, 3);
    assert_eq!(list.entries[1].topic, "b");
    assert_eq!(list.entries[1].count, 2);
    assert_eq!(list.entries[2].topic, "c");
    assert_eq!(list.entries[2].count, 1);
}

#[test]
fn update_in_place_keeps_position_and_overwrites() {
    let mut list = EntryList::new();
    list.add(&msg("x", "old-x", 1));
    list.add(&msg("y", "old-y", 2));
    list.add(&msg("z", "old-z", 3));
    list.add(&msg("y", "new-y", 9));
    assert_eq!(list.entries.len(), 3);
    assert_eq!(list.entries[1].topic, "y");
    assert_eq!(list.entries[1].value, "new-y");
    assert_eq!(list.entries[1].time, 9);
    assert_eq!(list.entries[1].count, 2);
    // neighbours untouched, order of first appearance kept
    assert_eq!(list.entries[0].topic, "x");
    assert_eq!(list.entries[0].value, "old-x");
    assert_eq!(list.entries[0].count, 1);
    assert_eq!(list.entries[2].topic, "z");
    assert_eq!(list.entries[2].value, "old-z");
    assert_eq!(list.entries[2].count, 1);
}

#[test]
fn topics_compare_case_sensitively() {
    let mut list = EntryList::new();
    list.add(&msg("Topic", "1", 1));
    list.add(&msg("topic", "2", 2));
    assert_eq!(list.entries.len(), 2);
}
