use pusu::frame::encode;
use pusu::producer::config::{ProducerConfig, ProducerConfigOption, ReceiverConfig};
use pusu::producer::{
    shard_index, ProducerError, ProducerManager, ReceiverStatus, TopicContainer, TopicManager,
    SHARD_COUNT,
};
use pusu::receiver::Receiver;

fn names(list: &[&str]) -> Vec<String> {
    list.iter().map(|s| s.to_string()).collect()
}

fn two_receivers_on_orders() -> ProducerManager {
    let mut manager = ProducerManager::with_topics(7, &names(&["orders", "alerts"]));
    assert!(manager.add_receiver(1, "127.0.0.1:9001", &names(&["orders"])));
    assert!(manager.add_receiver(2, "127.0.0.1:9002", &names(&["orders"])));
    manager
}

fn io_error() -> ProducerError {
    ProducerError::IO("connection refused".to_string())
}

#[test]
fn receiver_starts_available() {
    let receiver = Receiver::new(3, "10.0.0.1:80".to_string());
    assert_eq!(receiver.id, 3);
    assert_eq!(receiver.addr, "10.0.0.1:80");
    assert_eq!(receiver.status, ReceiverStatus::Available);
}

#[test]
fn shard_is_id_modulo_64() {
    assert_eq!(SHARD_COUNT, 64);
    assert_eq!(shard_index(0), 0);
    assert_eq!(shard_index(63), 63);
    assert_eq!(shard_index(64), 0);
    assert_eq!(shard_index(1000), 40);
    assert_eq!(shard_index(usize::MAX), usize::MAX % 64);
}

#[test]
fn thousand_ids_fall_into_their_shards() {
    let mut topic = TopicManager::new();
    for shard in 0..SHARD_COUNT {
        assert_eq!(topic.shard_len(shard), 0);
    }
    for id in 0..1000usize {
        topic.add_message_to_validate(id * 3 + 5, vec![id as u8]);
    }
    for shard in 0..SHARD_COUNT {
        let expected = (0..1000usize).filter(|id| (id * 3 + 5) % 64 == shard).count();
        assert_eq!(topic.shard_len(shard), expected);
    }
    assert_eq!(topic.shard_len(64), 0);
    let total: usize = (0..SHARD_COUNT).map(|shard| topic.shard_len(shard)).sum();
    assert_eq!(total, 1000);
    for id in 0..1000usize {
        assert!(topic.is_pending(id * 3 + 5));
        assert_eq!(topic.validate_message(id * 3 + 5), Some(vec![vec![id as u8]]));
        assert!(!topic.is_pending(id * 3 + 5));
    }
}

#[test]
fn topic_manager_keeps_attempts_in_order() {
    let mut topic = TopicManager::new();
    assert!(topic.receivers().is_empty());
    topic.subscribe(4);
    topic.subscribe(2);
    topic.subscribe(4);
    assert_eq!(topic.receivers(), &vec![4, 2, 4]);
    topic.add_message_to_validate(9, vec![1]);
    topic.add_message_to_validate(9, vec![2, 2]);
    topic.add_message_to_validate(73, vec![3]);
    assert_eq!(topic.shard_len(9), 2);
    assert_eq!(topic.validate_message(9), Some(vec![vec![1], vec![2, 2]]));
    assert_eq!(topic.validate_message(9), None);
    assert_eq!(topic.shard_len(9), 1);
    assert_eq!(topic.validate_message(73), Some(vec![vec![3]]));
}

#[test]
fn add_receiver_tells_new_from_known() {
    let mut manager = ProducerManager::with_topics(1, &names(&["orders"]));
    assert_eq!(manager.receiver_status(5), None);
    assert!(manager.add_receiver(5, "a:1", &names(&["orders"])));
    assert_eq!(manager.receiver_status(5), Some(ReceiverStatus::Available));
    assert!(!manager.add_receiver(5, "a:2", &names(&["orders", "orders"])));
    assert_eq!(manager.subscribers("orders"), Some(&vec![5, 5, 5]));
    assert_eq!(manager.subscribers("alerts"), None);
}

#[test]
fn registering_again_makes_available_again() {
    let mut manager = two_receivers_on_orders();
    manager.mark_receiver_down(1);
    assert_eq!(manager.receiver_status(1), Some(ReceiverStatus::Down));
    assert!(!manager.add_receiver(1, "127.0.0.1:9009", &[]));
    assert_eq!(manager.receiver_status(1), Some(ReceiverStatus::Available));
    let outbound = manager.send("orders", &[]).unwrap();
    assert_eq!(outbound.receiver_id, 1);
    assert_eq!(outbound.addr, "127.0.0.1:9009");
}

#[test]
fn select_takes_the_first_available_subscriber() {
    let mut manager = two_receivers_on_orders();
    assert_eq!(manager.get_receiver_id_by_topic("orders"), Some(1));
    assert_eq!(manager.get_receiver_id_by_topic("alerts"), None);
    assert_eq!(manager.get_receiver_id_by_topic("nothing"), None);
    manager.mark_receiver_down(1);
    assert_eq!(manager.get_receiver_id_by_topic("orders"), Some(2));
    manager.mark_receiver_down(2);
    assert_eq!(manager.get_receiver_id_by_topic("orders"), None);
}

#[test]
fn health_failover() {
    let mut manager = two_receivers_on_orders();
    let first = manager.send("orders", &[1]).unwrap();
    assert_eq!(first.receiver_id, 1);
    assert_eq!(first.topic, "orders");
    assert_eq!(first.addr, "127.0.0.1:9001");
    let id = first.message_id;
    let done = manager.conclude_send(first, Err(io_error()));
    assert!(matches!(done, Err(ProducerError::IO(reason)) if reason == "connection refused"));
    assert_eq!(manager.receiver_status(1), Some(ReceiverStatus::Down));
    assert_eq!(manager.receiver_status(2), Some(ReceiverStatus::Available));
    assert!(!manager.is_pending("orders", id));
    let second = manager.send("orders", &[1]).unwrap();
    assert_eq!(second.receiver_id, 2);
    assert_eq!(second.addr, "127.0.0.1:9002");
}

#[test]
fn no_receiver_available() {
    let mut manager = two_receivers_on_orders();
    let before = manager.next_id();
    let outcome = manager.send("alerts", &[1, 2, 3]);
    assert!(matches!(outcome, Err(ProducerError::NoReceiverAvailable)));
    assert_eq!(manager.next_id(), before);
    assert!(!manager.is_pending("alerts", before));
    assert_eq!(manager.validate_message("alerts", before), None);
    assert_eq!(manager.receiver_status(1), Some(ReceiverStatus::Available));
    assert_eq!(manager.receiver_status(2), Some(ReceiverStatus::Available));
    assert!(matches!(manager.send("nothing", &[]), Err(ProducerError::NoReceiverAvailable)));
    assert_eq!(manager.next_id(), before);
}

#[test]
fn all_receivers_down_is_no_receiver_available() {
    let mut manager = two_receivers_on_orders();
    manager.mark_receiver_down(1);
    manager.mark_receiver_down(2);
    assert!(matches!(manager.send("orders", &[]), Err(ProducerError::NoReceiverAvailable)));
    assert_eq!(manager.next_id(), 0);
}

#[test]
fn message_ids_count_up_from_zero() {
    let mut manager = two_receivers_on_orders();
    assert_eq!(manager.producer_id(), 7);
    let mut seen = Vec::new();
    for expected in 0..200usize {
        assert_eq!(manager.next_id(), expected);
        let outbound = manager.send("orders", &[0]).unwrap();
        assert_eq!(outbound.message_id, expected);
        seen.push(outbound.message_id);
    }
    assert!(seen.windows(2).all(|pair| pair[0] < pair[1]));
    assert_eq!(manager.generate_message_id(), 200);
    assert_eq!(manager.generate_message_id(), 201);
}

#[test]
fn send_frames_topic_and_payload() {
    let mut manager = two_receivers_on_orders();
    let outbound = manager.send("orders", &[5, 6]).unwrap();
    assert_eq!(outbound.frame, encode("orders", &[5, 6]));
    assert_eq!(outbound.frame, vec![0, 6, b'o', b'r', b'd', b'e', b'r', b's', 0, 0, 0, 2, 5, 6]);
}

#[test]
fn written_frame_waits_for_validation() {
    let mut manager = two_receivers_on_orders();
    let outbound = manager.send("orders", &[5, 6]).unwrap();
    let id = outbound.message_id;
    let frame = outbound.frame.clone();
    assert!(!manager.is_pending("orders", id));
    assert!(manager.conclude_send(outbound, Ok(())).is_ok());
    assert!(manager.is_pending("orders", id));
    assert!(!manager.is_pending("alerts", id));
    assert_eq!(manager.receiver_status(1), Some(ReceiverStatus::Available));
    assert_eq!(manager.validate_message("alerts", id), None);
    assert_eq!(manager.validate_message("orders", id), Some(vec![frame]));
    assert_eq!(manager.validate_message("orders", id), None);
}

#[test]
fn other_failures_leave_the_receiver_up() {
    let mut manager = two_receivers_on_orders();
    let outbound = manager.send("orders", &[]).unwrap();
    let id = outbound.message_id;
    let done = manager
        .conclude_send(outbound, Err(ProducerError::BinaryConversionError("bad".to_string())));
    assert!(matches!(done, Err(ProducerError::BinaryConversionError(reason)) if reason == "bad"));
    assert_eq!(manager.receiver_status(1), Some(ReceiverStatus::Available));
    assert!(!manager.is_pending("orders", id));
    let outbound = manager.send("orders", &[]).unwrap();
    let done = manager.conclude_send(outbound, Err(ProducerError::SendError("gone".to_string())));
    assert!(matches!(done, Err(ProducerError::SendError(_))));
    assert_eq!(manager.receiver_status(1), Some(ReceiverStatus::Available));
}

#[test]
fn attempts_under_one_id_pile_up() {
    let mut manager = two_receivers_on_orders();
    manager.add_message_to_validate("orders", 3, vec![1]);
    manager.add_message_to_validate("orders", 3, vec![2]);
    manager.add_message_to_validate("orders", 67, vec![3]);
    assert_eq!(manager.validate_message("orders", 3), Some(vec![vec![1], vec![2]]));
    assert_eq!(manager.validate_message("orders", 67), Some(vec![vec![3]]));
}

#[test]
fn topics_are_declared_once() {
    let manager = ProducerManager::with_topics(0, &names(&["a", "b", "a", "c", "b"]));
    assert!(manager.has_topic("a"));
    assert!(manager.has_topic("b"));
    assert!(manager.has_topic("c"));
    assert!(!manager.has_topic("d"));
    assert!(!manager.has_topic(""));
    assert_eq!(manager.subscribers("a"), Some(&vec![]));
    assert_eq!(manager.next_id(), 0);
    assert_eq!(manager.producer_id(), 0);
}

#[derive(Clone, Copy)]
enum Shop {
    Orders,
    Alerts,
}

impl TopicContainer for Shop {
    fn get_topics() -> Vec<Self> {
        vec![Shop::Orders, Shop::Alerts]
    }

    fn name(&self) -> String {
        match self {
            Shop::Orders => "orders".to_string(),
            Shop::Alerts => "alerts".to_string(),
        }
    }
}

struct Silent;

impl TopicContainer for Silent {
    fn name(&self) -> String {
        "silent".to_string()
    }
}

#[test]
fn manager_declares_the_topics_of_its_container() {
    let mut manager = ProducerManager::new::<Shop>(12);
    assert_eq!(manager.producer_id(), 12);
    assert!(manager.has_topic(&Shop::Orders.name()));
    assert!(manager.has_topic(&Shop::Alerts.name()));
    assert!(!manager.has_topic("silent"));
    assert!(manager.add_receiver(1, "h:1", &[Shop::Alerts.name()]));
    assert_eq!(manager.get_receiver_id_by_topic("alerts"), Some(1));
    assert_eq!(manager.get_receiver_id_by_topic("orders"), None);
}

#[test]
fn container_without_topics_declares_none() {
    assert!(Silent::get_topics().is_empty());
    let manager = ProducerManager::new::<Silent>(1);
    assert!(!manager.has_topic("silent"));
}

fn shop_config() -> ProducerConfig {
    ProducerConfig::from(ProducerConfigOption {
        id: 3,
        nb_workers: None,
        port: Some(9000),
        receivers: vec![
            ReceiverConfig { id: 1, addr: "127.0.0.1:1".to_string(), topics: names(&["orders"]) },
            ReceiverConfig {
                id: 2,
                addr: "127.0.0.1:2".to_string(),
                topics: names(&["alerts", "orders"]),
            },
        ],
    })
}

#[test]
fn defaults_fill_what_the_configuration_leaves_out() {
    let config = shop_config();
    assert_eq!(config.id, 3);
    assert_eq!(config.nb_workers, 2);
    assert_eq!(config.port, 9000);
    assert_eq!(config.receivers.len(), 2);
    let config = ProducerConfig::from(ProducerConfigOption {
        id: 1,
        nb_workers: Some(9),
        port: None,
        receivers: vec![],
    });
    assert_eq!(config.nb_workers, 9);
    assert_eq!(config.port, 8080);
}

#[test]
fn manager_from_configuration_registers_in_order() {
    let config = shop_config();
    let topics = names(&["orders", "alerts"]);
    assert!(ProducerManager::covers_config(&config, &topics));
    assert!(!ProducerManager::covers_config(&config, &names(&["orders"])));
    assert!(!ProducerManager::covers_config(&config, &[]));
    let mut manager = ProducerManager::from_config(&config, &topics);
    assert_eq!(manager.producer_id(), 3);
    assert_eq!(manager.subscribers("orders"), Some(&vec![1, 2]));
    assert_eq!(manager.subscribers("alerts"), Some(&vec![2]));
    assert_eq!(manager.send("alerts", &[]).unwrap().addr, "127.0.0.1:2");
    assert_eq!(manager.send("orders", &[]).unwrap().addr, "127.0.0.1:1");
}

#[test]
fn configuration_turned_round_by_topic() {
    let sorted = shop_config().sort_by_topics();
    let receivers: Vec<(usize, &str)> =
        sorted.receivers.iter().map(|r| (r.id, r.address.as_str())).collect();
    assert_eq!(receivers, vec![(1, "127.0.0.1:1"), (2, "127.0.0.1:2")]);
    let topics: Vec<(&str, &[usize])> =
        sorted.topics.iter().map(|t| (t.topic.as_str(), &t.receivers[..])).collect();
    assert_eq!(topics, vec![("orders", &[0usize, 1][..]), ("alerts", &[1usize][..])]);
}

#[test]
fn topic_named_twice_lists_its_receiver_twice() {
    let config = ProducerConfig {
        id: 0,
        nb_workers: 1,
        port: 1,
        receivers: vec![
            ReceiverConfig { id: 9, addr: "h:9".to_string(), topics: names(&["a", "b", "a"]) },
            ReceiverConfig { id: 8, addr: "h:8".to_string(), topics: vec![] },
            ReceiverConfig { id: 7, addr: "h:7".to_string(), topics: names(&["c", "a"]) },
        ],
    };
    let sorted = config.sort_by_topics();
    assert_eq!(sorted.receivers.len(), 3);
    let topics: Vec<(&str, &[usize])> =
        sorted.topics.iter().map(|t| (t.topic.as_str(), &t.receivers[..])).collect();
    assert_eq!(
        topics,
        vec![("a", &[0usize, 0, 2][..]), ("b", &[0usize][..]), ("c", &[2usize][..])]
    );
    let empty = ProducerConfig { id: 0, nb_workers: 1, port: 1, receivers: vec![] };
    let sorted = empty.sort_by_topics();
    assert!(sorted.topics.is_empty() && sorted.receivers.is_empty());
}
