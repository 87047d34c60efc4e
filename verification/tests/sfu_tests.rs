use rustbits::sfu::{client_id_from_uuid, fresh_client_id, should_forward, MediaKind, ProducerInfo, Room};

#[test]
fn client_ids_are_seven_hex_digits() {
    let id = fresh_client_id();
    assert_eq!(id.chars().count(), 7);
    assert!(id.chars().all(|c| c.is_ascii_hexdigit() && !c.is_ascii_uppercase()));
    assert_eq!(client_id_from_uuid("67e55044-10b1-426f-9247-bb680e5fe0c8"), "67e5504");
    assert_eq!(client_id_from_uuid("abc"), "abc");
}

#[test]
fn broadcasts_go_to_everyone_but_the_sender() {
    assert!(!should_forward("a1", "a1"));
    assert!(should_forward("a1", "b2"));
}

#[test]
fn existing_producers_are_those_of_other_clients_not_closed() {
    let mut room = Room::new();
    room.register_client("alice");
    room.register_client("bob");
    room.add_producer("alice", 1, MediaKind::Audio);
    room.add_producer("alice", 2, MediaKind::Video);
    room.add_producer("bob", 3, MediaKind::Video);
    let mut for_bob = room.existing_producers("bob", &[]);
    for_bob.sort_by_key(|p| p.producer_id);
    assert_eq!(
        for_bob,
        vec![
            ProducerInfo { producer_id: 1, kind: MediaKind::Audio },
            ProducerInfo { producer_id: 2, kind: MediaKind::Video },
        ]
    );
    let for_alice = room.existing_producers("alice", &[3]);
    assert!(for_alice.is_empty());
    let for_carol = room.existing_producers("carol", &[2]);
    assert_eq!(for_carol.len(), 2);
    assert!(room.can_consume_producer(1, &[]));
    assert!(!room.can_consume_producer(1, &[1]));
    assert!(!room.can_consume_producer(9, &[]));
}

#[test]
fn removing_a_client_drops_its_producers() {
    let mut room = Room::new();
    room.register_client("alice");
    room.add_producer("alice", 1, MediaKind::Audio);
    room.add_producer("alice", 1, MediaKind::Audio);
    room.add_producer("bob", 2, MediaKind::Video);
    assert_eq!(room.producers_of_client("alice"), Some(vec![1]));
    let gone = room.remove_client("alice");
    assert_eq!(gone, vec![1]);
    assert_eq!(room.producers_of_client("alice"), None);
    assert!(!room.can_consume_producer(1, &[]));
    assert!(room.can_consume_producer(2, &[]));
    assert_eq!(room.remove_client("nobody"), Vec::<u128>::new());
}

#[test]
fn registering_again_starts_over() {
    let mut room = Room::new();
    room.add_producer("alice", 5, MediaKind::Video);
    room.register_client("alice");
    assert_eq!(room.producers_of_client("alice"), Some(vec![]));
}

#[test]
fn each_offered_producer_is_listed_once_per_owner() {
    let mut room = Room::new();
    room.add_producer("alice", 1, MediaKind::Audio);
    room.add_producer("bob", 2, MediaKind::Video);
    room.add_producer("bob", 3, MediaKind::Audio);
    room.add_producer("carol", 4, MediaKind::Video);
    let offered = room.existing_producers("carol", &[3]);
    assert_eq!(
        offered,
        vec![
            ProducerInfo { producer_id: 1, kind: MediaKind::Audio },
            ProducerInfo { producer_id: 2, kind: MediaKind::Video },
        ]
    );
}
