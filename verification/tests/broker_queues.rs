use pusu::broker::message::Response;
use pusu::broker::topic::Topic;
use pusu::broker::{Broker, Sendable, PARTITION_MESSAGE_ID};

#[test]
fn topic_is_first_in_first_out() {
    let mut topic: Topic<&str> = Topic::new("orders");
    assert_eq!(topic.name, "orders");
    assert_eq!(topic.next_id, 0);
    assert!(topic.consume().is_none());
    topic.publish("a");
    topic.publish("b");
    topic.publish("c");
    assert_eq!(topic.next_id, 3);
    assert_eq!(topic.queue.len(), 3);
    let first = topic.consume().unwrap();
    assert_eq!((first.id, first.payload), (0, "a"));
    topic.publish("d");
    let rest: Vec<(usize, &str)> =
        std::iter::from_fn(|| topic.consume()).map(|m| (m.id, m.payload)).collect();
    assert_eq!(rest, vec![(1, "b"), (2, "c"), (3, "d")]);
    assert_eq!(topic.next_id, 4);
    assert!(topic.consume().is_none());
}

struct Parcel(u32);

impl Sendable for Parcel {}

#[test]
fn broker_accepts_partitions_for_any_topic() {
    assert_eq!(PARTITION_MESSAGE_ID, 10);
    let mut broker: Broker<Parcel> = Broker::new();
    broker.add_partition("orders".to_string(), Parcel(1));
    broker.add_partition("alerts".to_string(), Parcel(2));
    broker.add_partition("orders".to_string(), Parcel(3));
}

#[test]
fn responses_differ() {
    assert_ne!(Response::ACK, Response::FAILED);
}
