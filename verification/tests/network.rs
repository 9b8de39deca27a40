use powchain::block::{Block, BlockHash};
use powchain::network::{
    Network, NetworkConnection, NetworkError, NetworkMessageData, CHANNEL_CAPACITY,
};

fn block(tag: u128) -> Block {
    Block::new(1, BlockHash::default(), tag, vec![])
}

fn publish(tag: u128) -> NetworkMessageData {
    NetworkMessageData::PublishBlock(block(tag))
}

fn tag_of(data: &NetworkMessageData) -> u128 {
    match data {
        NetworkMessageData::PublishBlock(block) => block.guess(),
    }
}

#[test]
fn connect_registers_endpoints_under_fresh_identifiers() {
    let mut network = Network::new();
    assert_eq!(network.endpoint_count(), 0);
    let a = network.connect();
    let b = network.connect();
    assert_ne!(a.id, b.id);
    assert_eq!(network.endpoint_count(), 2);
    assert!(network.is_registered(a.id));
    assert!(network.is_registered(b.id));
    assert!(!network.is_registered(a.id ^ 1));
    // Version 4, variant 1.
    for id in [a.id, b.id] {
        assert_eq!((id >> 76) & 0xf, 4);
        assert_eq!((id >> 62) & 0x3, 2);
    }
}

#[test]
fn connecting_an_identifier_again_replaces_its_endpoint() {
    let mut network = Network::new();
    let first = network.connect_as(7);
    network.connect_as(8);
    network.send(first.id, publish(1)).unwrap();
    network.work();
    assert!(network.receive(8).is_ok());
    network.send(7, publish(2)).unwrap();
    let again = network.connect_as(7);
    assert_eq!(again.id, 7);
    assert_eq!(network.endpoint_count(), 2);
    // The message that waited in the old endpoint is gone.
    network.work();
    assert!(network.receive(8).is_err());
}

#[test]
fn tick_hands_a_message_to_every_other_endpoint() {
    let mut network = Network::new();
    let mut a = network.connect();
    let mut b = network.connect();
    let mut c = network.connect();

    a.send(&mut network, publish(42)).unwrap();
    // Nothing moves before the tick.
    assert!(matches!(b.receive(&mut network), Err(NetworkError::NoMessagesToReceive)));
    network.work();

    for receiver in [&mut b, &mut c] {
        let message = receiver.receive(&mut network).unwrap();
        assert_eq!(message.sender, a.id);
        assert_eq!(tag_of(&message.data), 42);
        assert!(receiver.receive(&mut network).is_err());
    }
    // Nothing is delivered twice.
    network.work();
    assert!(b.receive(&mut network).is_err());
    assert_eq!(network.endpoint_count(), 3);
}

#[test]
fn sender_never_receives_its_own_message() {
    let mut network = Network::new();
    let mut nodes: Vec<NetworkConnection> = (0..4).map(|_| network.connect()).collect();
    for (i, node) in nodes.iter_mut().enumerate() {
        node.send(&mut network, publish(i as u128)).unwrap();
    }
    network.work();
    for (i, node) in nodes.iter_mut().enumerate() {
        let mut seen = vec![];
        while let Ok(message) = node.receive(&mut network) {
            assert_ne!(message.sender, node.id);
            assert_ne!(tag_of(&message.data), i as u128);
            seen.push(tag_of(&message.data));
        }
        // The others' messages, in the order of registration.
        let expected: Vec<u128> = (0..4u128).filter(|tag| *tag != i as u128).collect();
        assert_eq!(seen, expected);
    }
}

#[test]
fn lone_sender_keeps_an_empty_inbox() {
    let mut network = Network::new();
    let mut only = network.connect();
    only.send(&mut network, publish(1)).unwrap();
    network.work();
    assert!(only.receive(&mut network).is_err());
    assert!(network.is_registered(only.id));
    // The message has left the outbound queue all the same.
    for _ in 0..CHANNEL_CAPACITY {
        only.send(&mut network, publish(2)).unwrap();
    }
}

#[test]
fn one_message_per_endpoint_and_tick_in_order() {
    let mut network = Network::new();
    let mut a = network.connect();
    let mut b = network.connect();
    for tag in [10, 11, 12] {
        a.send(&mut network, publish(tag)).unwrap();
    }
    network.work();
    assert_eq!(tag_of(&b.receive(&mut network).unwrap().data), 10);
    assert!(b.receive(&mut network).is_err());
    network.work();
    network.work();
    assert_eq!(tag_of(&b.receive(&mut network).unwrap().data), 11);
    assert_eq!(tag_of(&b.receive(&mut network).unwrap().data), 12);
    assert!(b.receive(&mut network).is_err());
}

#[test]
fn send_fails_on_a_full_outbound_queue() {
    let mut network = Network::new();
    let mut a = network.connect();
    for tag in 0..CHANNEL_CAPACITY as u128 {
        assert!(a.send(&mut network, publish(tag)).is_ok());
    }
    assert!(matches!(a.send(&mut network, publish(99)), Err(NetworkError::Failed)));
    // A tick makes room for one more.
    network.work();
    assert!(a.send(&mut network, publish(100)).is_ok());
    assert!(matches!(a.send(&mut network, publish(101)), Err(NetworkError::Failed)));
}

#[test]
fn send_and_receive_fail_without_an_endpoint() {
    let mut network = Network::new();
    let mut stray = NetworkConnection::new(5);
    assert!(matches!(stray.send(&mut network, publish(1)), Err(NetworkError::Failed)));
    assert!(matches!(stray.receive(&mut network), Err(NetworkError::NoMessagesToReceive)));
    assert_eq!(network.endpoint_count(), 0);
}

#[test]
fn endpoint_with_a_full_inbox_is_taken_off() {
    let mut network = Network::new();
    let mut talker = network.connect();
    let mut deaf = network.connect();
    let mut listener = network.connect();
    for tag in 0..CHANNEL_CAPACITY as u128 {
        talker.send(&mut network, publish(tag)).unwrap();
        network.work();
        // The listener keeps up, the deaf endpoint does not.
        assert_eq!(tag_of(&listener.receive(&mut network).unwrap().data), tag);
    }
    assert!(network.is_registered(deaf.id));
    // The deaf endpoint's inbox is full now: the next delivery fails.
    talker.send(&mut network, publish(1000)).unwrap();
    network.work();
    assert!(!network.is_registered(deaf.id));
    assert!(network.is_registered(talker.id));
    assert!(network.is_registered(listener.id));
    assert_eq!(tag_of(&listener.receive(&mut network).unwrap().data), 1000);
    assert!(deaf.receive(&mut network).is_err());
    assert!(matches!(deaf.send(&mut network, publish(1)), Err(NetworkError::Failed)));
    assert_eq!(network.endpoint_count(), 2);
}

#[test]
fn closed_endpoint_is_taken_off_at_the_next_tick() {
    let mut network = Network::new();
    let mut leaving = network.connect();
    let mut staying = network.connect();
    leaving.send(&mut network, publish(3)).unwrap();
    network.close(leaving.id);
    assert!(network.is_registered(leaving.id));
    assert!(matches!(leaving.send(&mut network, publish(4)), Err(NetworkError::Failed)));
    network.work();
    assert!(!network.is_registered(leaving.id));
    // What it had published before it left is still handed on.
    assert_eq!(tag_of(&staying.receive(&mut network).unwrap().data), 3);
    assert!(network.is_registered(staying.id));
    // Closing an unknown endpoint does nothing.
    network.close(leaving.id);
    assert_eq!(network.endpoint_count(), 1);
}

#[test]
fn tick_without_messages_changes_nothing() {
    assert_eq!(Network::default().endpoint_count(), 0);
    let mut network = Network::new();
    network.work();
    let mut a = network.connect();
    let b = network.connect();
    network.work();
    assert_eq!(network.endpoint_count(), 2);
    assert!(a.receive(&mut network).is_err());
    assert!(network.is_registered(b.id));
}

#[test]
fn cloned_message_keeps_sender_and_block() {
    let mut network = Network::new();
    let a = network.connect();
    let b = network.connect();
    network.send(a.id, publish(5)).unwrap();
    network.work();
    let message = network.receive(b.id).unwrap();
    let copy = message.clone();
    assert_eq!(copy.sender, a.id);
    assert_eq!(tag_of(&copy.data), 5);
    assert_eq!(tag_of(&message.data.clone()), 5);
}
