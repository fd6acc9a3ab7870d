use pusu::producer::ProducerManager;
use std::collections::HashSet;

#[test]
fn monotonic_ids_across_interleaved_callers() {
    const CALLERS: usize = 8;
    const SENDS: usize = 250;
    let topics = vec!["orders".to_string()];
    let mut manager = ProducerManager::with_topics(1, &topics);
    manager.add_receiver(1, "127.0.0.1:9001", &topics);
    let mut issued: Vec<Vec<usize>> = vec![Vec::new(); CALLERS];
    let mut turn: usize = 3;
    while issued.iter().any(|mine| mine.len() < SENDS) {
        turn = (turn * 5 + 1) % CALLERS;
        if issued[turn].len() == SENDS {
            turn = issued.iter().position(|mine| mine.len() < SENDS).unwrap();
        }
        let outbound = manager.send("orders", &[0]).unwrap();
        issued[turn].push(outbound.message_id);
        manager.conclude_send(outbound, Ok(())).unwrap();
    }
    let mut all = HashSet::new();
    for mine in &issued {
        assert_eq!(mine.len(), SENDS);
        assert!(mine.windows(2).all(|pair| pair[0] < pair[1]));
        all.extend(mine.iter().copied());
    }
    assert_eq!(all.len(), CALLERS * SENDS);
    assert_eq!(all, (0..CALLERS * SENDS).collect::<HashSet<usize>>());
    assert_eq!(manager.next_id(), CALLERS * SENDS);
    for id in 0..CALLERS * SENDS {
        assert!(manager.is_pending("orders", id));
    }
    assert!(manager.validate_message("orders", 17).is_some());
    assert!(!manager.is_pending("orders", 17));
}
