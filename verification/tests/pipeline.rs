use redis_dashboard::channel::Channel;
use redis_dashboard::control::Dashboard;
use redis_dashboard::control::KeyAction;
use redis_dashboard::control::KEY_NONE;
use redis_dashboard::control::KEY_QUIT;
use redis_dashboard::control::KEY_RESIZE_CODE;
use redis_dashboard::control::KEY_SORT_COUNT;
use redis_dashboard::control::KEY_SORT_TIME;
use redis_dashboard::control::KEY_SORT_TOPIC;
use redis_dashboard::control::KEY_SORT_VALUE;
use redis_dashboard::layout::Size;
use redis_dashboard::message::PublishMessage;
use redis_dashboard::sort::SortKey;
use redis_dashboard::subscriber::subscriber_step;
use redis_dashboard::subscriber::BrokerEvent;
use redis_dashboard::subscriber::ConnState;
use redis_dashboard::subscriber::SubscriberAction;

fn msg(topic: &str, value: &str, time: u64) -> PublishMessage {
    PublishMessage::new(String::from(topic), String::from(value), time)
}

#[test]
fn full_channel_refuses_a_third_send_without_dropping() {
    let mut ch = Channel::new(2);
    assert!(ch.try_push(msg("a", "1", 1)));
    assert!(ch.try_push(msg("b", "2", 2)));
    // the producer would now block: the push fails and nothing is lost
    assert!(!ch.try_push(msg("c", "3", 3)));
    assert_eq!(ch.len(), 2);
    // draining one slot lets the retried send through
    let first = ch.try_pop().unwrap();
    assert_eq!(first.topic, "a");
    assert!(ch.try_push(msg("c", "3", 3)));
    assert_eq!(ch.len(), 2);
}

#[test]
fn channel_delivers_in_the_order_sent() {
    let mut ch = Channel::new(8);
    ch.try_push(msg("a", "1", 1));
    ch.try_push(msg("b", "2", 2));
    ch.try_push(msg("c", "3", 3));
    assert_eq!(ch.try_pop().unwrap().topic, "a");
    assert_eq!(ch.try_pop().unwrap().topic, "b");
    assert_eq!(ch.try_pop().unwrap().topic, "c");
    assert!(ch.try_pop().is_none());
}

#[test]
fn reconnect_resumes_ingestion_without_duplicates() {
    // connect, receive one message, lose the connection, reconnect, receive
    // the next: each delivered message is forwarded exactly once
    let s = ConnState::Disconnected;
    let (s, a) = subscriber_step(s, BrokerEvent::SubscribeOk);
    assert!(matches!(a, SubscriberAction::Read));
    let (s, a) = subscriber_step(s, BrokerEvent::Inbound(msg("a", "1", 1)));
    match a {
        SubscriberAction::Forward(m) => assert_eq!(m.topic, "a"),
        _ => panic!("expected a forward"),
    }
    let (s, a) = subscriber_step(s, BrokerEvent::ReadError);
    assert!(matches!(a, SubscriberAction::Connect));
    assert!(matches!(s, ConnState::Disconnected));
    // a failed attempt retries, then the reconnect succeeds
    let (s, a) = subscriber_step(s, BrokerEvent::ConnectFailed);
    assert!(matches!(a, SubscriberAction::Connect));
    let (s, a) = subscriber_step(s, BrokerEvent::SubscribeOk);
    assert!(matches!(a, SubscriberAction::Read));
    let (s, a) = subscriber_step(s, BrokerEvent::Inbound(msg("b", "2", 2)));
    match a {
        SubscriberAction::Forward(m) => assert_eq!(m.topic, "b"),
        _ => panic!("expected a forward"),
    }
    assert!(matches!(s, ConnState::Subscribed));
}

#[test]
fn bad_payload_skips_one_message_and_reads_on() {
    let (s, _) = subscriber_step(ConnState::Disconnected, BrokerEvent::SubscribeOk);
    let (s, a) = subscriber_step(s, BrokerEvent::BadPayload);
    assert!(matches!(s, ConnState::Subscribed));
    assert!(matches!(a, SubscriberAction::Read));
}

#[test]
fn consumer_gone_stops_the_subscriber() {
    let (s, _) = subscriber_step(ConnState::Disconnected, BrokerEvent::SubscribeOk);
    let (_, a) = subscriber_step(s, BrokerEvent::ConsumerGone);
    assert!(matches!(a, SubscriberAction::Stop));
}

#[test]
fn key_mapping_matches_the_keyboard_commands() {
    let mut d = Dashboard::new(Size::new(80, 24));
    assert!(matches!(d.handle_key(KEY_QUIT), KeyAction::Quit));
    assert!(matches!(d.handle_key(KEY_RESIZE_CODE), KeyAction::Resized));
    assert!(matches!(d.handle_key(KEY_NONE), KeyAction::NoInput));
    assert!(matches!(d.handle_key(0x41), KeyAction::Other));
    assert!(matches!(d.handle_key(KEY_SORT_COUNT), KeyAction::SetSort(SortKey::Count)));
    assert!(matches!(d.sort, SortKey::Count));
    assert!(matches!(d.handle_key(KEY_SORT_TIME), KeyAction::SetSort(SortKey::Time)));
    assert!(matches!(d.handle_key(KEY_SORT_VALUE), KeyAction::SetSort(SortKey::Value)));
    assert!(matches!(d.handle_key(KEY_SORT_TOPIC), KeyAction::SetSort(SortKey::Topic)));
    assert!(matches!(d.sort, SortKey::Topic));
}

#[test]
fn resize_recomputes_the_layout_only_on_change() {
    let mut d = Dashboard::new(Size::new(80, 24));
    assert!(!d.check_resize(Size::new(80, 24)));
    assert!(d.check_resize(Size::new(82, 24)));
    assert_eq!(d.layout.value_start, 33);
    assert_eq!(d.layout.rows, 23);
}

#[test]
fn one_loop_iteration_drains_sorts_and_reacts() {
    let mut d = Dashboard::new(Size::new(82, 24));
    assert!(d.try_ingest(&msg("pear", "1", 5)));
    assert!(d.try_ingest(&msg("apple", "2", 4)));
    assert!(d.try_ingest(&msg("pear", "3", 6)));
    d.sort_now();
    // default sort key is topic
    assert_eq!(d.table.entries[0].topic, "apple");
    assert_eq!(d.table.entries[1].topic, "pear");
    assert_eq!(d.table.entries[1].count, 2);
    d.handle_key(KEY_SORT_TIME);
    d.sort_now();
    assert_eq!(d.table.entries[0].topic, "apple");
    assert_eq!(d.table.entries[0].value, "2");
}
