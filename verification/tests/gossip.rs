use blake2::digest::consts::U32;
use blake2::{Blake2b, Digest};
use sc_proof_of_time::gossip::{
    pot_gossip_peers_set_config, topic, MessageIntent, PeerId, PotGossip, PotGossipValidator,
    ValidationResult, GOSSIP_PROTOCOL, GOSSIP_TOPIC_TAG, MAX_NOTIFICATION_SIZE, NON_RESERVED_PEERS,
};
use sc_proof_of_time::primitives::{PotCheckpoint, PotKey, PotProof, PotSeed};

fn peer() -> PeerId {
    PeerId::from_bytes(vec![1, 2, 3])
}

fn message() -> Vec<u8> {
    PotProof::new(
        5,
        PotSeed([1u8; 16]),
        PotKey([2u8; 16]),
        vec![PotCheckpoint([3u8; 16])],
        [4u8; 32],
    )
    .unwrap()
    .encode()
}

#[test]
fn peer_id_keeps_its_bytes() {
    let id = PeerId::from_bytes(vec![1, 2, 3]);
    assert_eq!(id.as_bytes(), &vec![1, 2, 3]);
    assert_eq!(id, peer());
    assert_ne!(id, PeerId::from_bytes(vec![1, 2]));
}

#[test]
fn armed_message_is_allowed_once() {
    let mut validator = PotGossipValidator::new();
    let topic = topic();
    let m = message();
    validator.on_broadcast(&m);
    assert!(validator.message_allowed(&peer(), MessageIntent::Broadcast, &topic, &m));
    assert!(!validator.message_allowed(&peer(), MessageIntent::Broadcast, &topic, &m));
    assert!(!validator.message_allowed(&peer(), MessageIntent::ForcedBroadcast, &topic, &m));
}

#[test]
fn message_is_allowed_again_after_it_was_armed_again() {
    let mut validator = PotGossipValidator::new();
    let topic = topic();
    let m = message();
    validator.on_broadcast(&m);
    assert!(validator.message_allowed(&peer(), MessageIntent::Broadcast, &topic, &m));
    validator.on_broadcast(&m);
    assert!(validator.message_allowed(&peer(), MessageIntent::PeriodicRebroadcast, &topic, &m));
    assert!(!validator.message_allowed(&peer(), MessageIntent::Broadcast, &topic, &m));
}

#[test]
fn message_armed_twice_is_allowed_once() {
    let mut validator = PotGossipValidator::new();
    let topic = topic();
    let m = message();
    validator.on_broadcast(&m);
    validator.on_broadcast(&m);
    assert!(validator.message_allowed(&peer(), MessageIntent::Broadcast, &topic, &m));
    assert!(!validator.message_allowed(&peer(), MessageIntent::Broadcast, &topic, &m));
}

#[test]
fn message_that_was_not_armed_is_not_allowed() {
    let mut validator = PotGossipValidator::new();
    let topic = topic();
    assert!(!validator.message_allowed(&peer(), MessageIntent::Broadcast, &topic, &message()));
    validator.on_broadcast(&[1, 2, 3]);
    assert!(!validator.message_allowed(&peer(), MessageIntent::Broadcast, &topic, &message()));
    assert!(!validator.message_allowed(&peer(), MessageIntent::Broadcast, &topic, &[1, 2]));
    assert!(validator.message_allowed(&peer(), MessageIntent::Broadcast, &topic, &[1, 2, 3]));
}

#[test]
fn armed_messages_are_told_apart() {
    let mut validator = PotGossipValidator::new();
    let topic = topic();
    for i in 0..50u8 {
        validator.on_broadcast(&[i]);
    }
    for i in (0..50u8).rev() {
        assert!(!validator.message_expired(&topic, &[i]));
        assert!(validator.message_allowed(&peer(), MessageIntent::Broadcast, &topic, &[i]));
        assert!(validator.message_expired(&topic, &[i]));
        assert!(!validator.message_allowed(&peer(), MessageIntent::Broadcast, &topic, &[i]));
    }
}

#[test]
fn message_is_expired_unless_it_is_armed() {
    let mut validator = PotGossipValidator::new();
    let topic = topic();
    let m = message();
    assert!(validator.message_expired(&topic, &m));
    validator.on_broadcast(&m);
    assert!(!validator.message_expired(&topic, &m));
    assert!(!validator.message_expired(&topic, &m));
    assert!(validator.message_expired(&topic, &[0u8; 4]));
    assert!(validator.message_allowed(&peer(), MessageIntent::Broadcast, &topic, &m));
    assert!(validator.message_expired(&topic, &m));
}

#[test]
fn topic_and_peer_do_not_matter() {
    let mut validator = PotGossipValidator::new();
    let m = message();
    validator.on_broadcast(&m);
    assert!(!validator.message_expired(&[], &m));
    assert!(validator.message_allowed(
        &PeerId::from_bytes(vec![]),
        MessageIntent::ForcedBroadcast,
        &[7u8; 3],
        &m
    ));
}

#[test]
fn proof_is_kept() {
    let validator = PotGossipValidator::new();
    assert_eq!(
        validator.validate(&peer(), &message()),
        ValidationResult::ProcessAndKeep
    );
}

#[test]
fn what_is_no_proof_is_discarded() {
    let validator = PotGossipValidator::new();
    assert_eq!(validator.validate(&peer(), &[]), ValidationResult::Discard);
    assert_eq!(validator.validate(&peer(), b"hello"), ValidationResult::Discard);
    let mut long = message();
    long.push(0);
    assert_eq!(validator.validate(&peer(), &long), ValidationResult::Discard);
    let m = message();
    assert_eq!(
        validator.validate(&peer(), &m[..m.len() - 1]),
        ValidationResult::Discard
    );
}

#[test]
fn validate_arms_nothing() {
    let mut validator = PotGossipValidator::new();
    let m = message();
    assert_eq!(validator.validate(&peer(), &m), ValidationResult::ProcessAndKeep);
    assert!(validator.message_expired(&topic(), &m));
    assert!(!validator.message_allowed(&peer(), MessageIntent::Broadcast, &topic(), &m));
}

#[test]
fn new_gossip_has_nothing_armed() {
    let mut gossip = PotGossip::new();
    let m = message();
    assert!(gossip.validator.message_expired(&topic(), &m));
    assert!(!gossip
        .validator
        .message_allowed(&peer(), MessageIntent::Broadcast, &topic(), &m));
}

#[test]
fn topic_is_the_digest_of_its_tag() {
    let expected: [u8; 32] = Blake2b::<U32>::digest(b"subspace-proof-of-time-gossip").into();
    assert_eq!(topic(), expected);
    assert_eq!(GOSSIP_TOPIC_TAG, "subspace-proof-of-time-gossip");
    assert_ne!(&topic()[..], &GOSSIP_TOPIC_TAG.as_bytes()[..29]);
}

#[test]
fn peers_set_config_values() {
    let config = pot_gossip_peers_set_config();
    assert_eq!(config.protocol, "/subspace/subspace-proof-of-time");
    assert_eq!(config.max_notification_size, 5 * 1024 * 1024);
    assert_eq!(config.in_peers, 25);
    assert_eq!(config.out_peers, 25);
    assert_eq!(GOSSIP_PROTOCOL, "/subspace/subspace-proof-of-time");
    assert_eq!(MAX_NOTIFICATION_SIZE, 5_242_880);
    assert_eq!(NON_RESERVED_PEERS, 25);
}
