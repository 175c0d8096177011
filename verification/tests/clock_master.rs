use sc_proof_of_time::chain::ResyncError;
use sc_proof_of_time::clock_master::{
    BootstrapError, BootstrapParams, ClockMaster, ClockMasterAction, ClockMasterEvent,
    ProofRequest, PROOFS_CHANNEL_SIZE,
};
use sc_proof_of_time::gossip::{topic, GossipError, MessageIntent, PeerId, PotGossip};
use sc_proof_of_time::node_client::{PotClient, PotClientAction, PotClientEvent};
use sc_proof_of_time::primitives::{PotCheckpoint, PotKey, PotProof, PotSeed};
use sc_proof_of_time::state::PotStateError;
use sc_proof_of_time::PotComponents;
use std::sync::mpsc::sync_channel;

const GENESIS_HASH: [u8; 32] = [
    0, 1, 2, 3, 4, 5, 6, 7, 8, 9, 10, 11, 12, 13, 14, 15, 16, 17, 18, 19, 20, 21, 22, 23, 24, 25,
    26, 27, 28, 29, 30, 31,
];

/// Stands in for the sequential computation: the checkpoints are made up.
fn create(request: &ProofRequest) -> PotProof {
    let mut checkpoints = Vec::new();
    for round in 0..4u8 {
        let mut bytes = [0u8; 16];
        for i in 0..16 {
            bytes[i] = request.seed.0[i] ^ request.key.0[i].rotate_left(round as u32) ^ round;
        }
        checkpoints.push(PotCheckpoint(bytes));
    }
    PotProof::new(
        request.slot_number,
        request.seed,
        request.key,
        checkpoints,
        request.injected_block_hash,
    )
    .unwrap()
}

fn params() -> BootstrapParams {
    BootstrapParams::new(GENESIS_HASH, PotKey([0x4b; 16]), 5)
}

fn peer() -> PeerId {
    PeerId::from_bytes(vec![7, 7])
}

fn bootstrapped() -> ClockMaster {
    let mut master = ClockMaster::new(PotComponents::new(), PotGossip::new());
    let first = create(&params().proof_request());
    assert_eq!(master.add_bootstrap_proof(&params(), first), Ok(()));
    master
}

fn successor(previous: &PotProof, filler: u8) -> PotProof {
    PotProof::new(
        previous.slot_number() + 1,
        previous.next_seed(),
        previous.next_key(),
        vec![PotCheckpoint([filler; 16])],
        previous.injected_block_hash(),
    )
    .unwrap()
}

#[test]
fn bootstrap_params_keep_their_values() {
    let params = params();
    assert_eq!(params.genesis_hash, GENESIS_HASH);
    assert_eq!(params.key, PotKey([0x4b; 16]));
    assert_eq!(params.slot, 5);
}

#[test]
fn bootstrap_request_is_made_from_the_params() {
    let request = params().proof_request();
    assert_eq!(
        request.seed,
        PotSeed([0, 1, 2, 3, 4, 5, 6, 7, 8, 9, 10, 11, 12, 13, 14, 15])
    );
    assert_eq!(request.seed, PotSeed::from_block_hash(GENESIS_HASH));
    assert_eq!(request.key, PotKey([0x4b; 16]));
    assert_eq!(request.slot_number, 5);
    assert_eq!(request.injected_block_hash, GENESIS_HASH);
}

#[test]
fn new_clock_master_has_no_tip_and_runs() {
    let master = ClockMaster::new(PotComponents::new(), PotGossip::new());
    assert!(master.pot_state.is_empty());
    assert!(!master.should_exit);
    assert_eq!(master.next_proof_request(), None);
}

#[test]
fn bootstrap_installs_the_first_proof() {
    let master = bootstrapped();
    let tip = master.pot_state.tip().unwrap();
    assert_eq!(tip.slot_number(), 5);
    assert_eq!(tip.seed(), PotSeed::from_block_hash(GENESIS_HASH));
    assert_eq!(tip.key(), PotKey([0x4b; 16]));
    assert_eq!(tip.injected_block_hash(), GENESIS_HASH);
    assert_eq!(master.pot_state.len(), 1);
}

#[test]
fn bootstrap_refuses_a_proof_of_something_else() {
    let request = params().proof_request();
    let mut master = ClockMaster::new(PotComponents::new(), PotGossip::new());
    let mut wrong_slot = request;
    wrong_slot.slot_number = 6;
    assert_eq!(
        master.add_bootstrap_proof(&params(), create(&wrong_slot)),
        Err(BootstrapError::UnexpectedProof)
    );
    let mut wrong_seed = request;
    wrong_seed.seed = PotSeed([0; 16]);
    assert_eq!(
        master.add_bootstrap_proof(&params(), create(&wrong_seed)),
        Err(BootstrapError::UnexpectedProof)
    );
    let mut wrong_key = request;
    wrong_key.key = PotKey([0; 16]);
    assert_eq!(
        master.add_bootstrap_proof(&params(), create(&wrong_key)),
        Err(BootstrapError::UnexpectedProof)
    );
    let mut wrong_hash = request;
    wrong_hash.injected_block_hash = [0; 32];
    assert_eq!(
        master.add_bootstrap_proof(&params(), create(&wrong_hash)),
        Err(BootstrapError::UnexpectedProof)
    );
    assert!(master.pot_state.is_empty());
}

#[test]
fn resync_installs_the_chain_of_the_host() {
    let first = create(&params().proof_request());
    let second = successor(&first, 1);
    let mut master = ClockMaster::new(PotComponents::new(), PotGossip::new());
    assert_eq!(master.resync(vec![first, second.clone()]), Ok(()));
    assert_eq!(master.pot_state.tip(), Some(&second));
    assert_eq!(master.pot_state.len(), 2);
    assert_eq!(master.next_proof_request().unwrap().slot_number, 7);
}

#[test]
fn resync_refuses_what_is_no_chain() {
    let first = create(&params().proof_request());
    let second = successor(&first, 1);
    let third = successor(&second, 2);
    let mut master = bootstrapped();
    assert_eq!(master.resync(vec![]), Err(ResyncError::NotAChain));
    assert_eq!(
        master.resync(vec![first.clone(), third.clone()]),
        Err(ResyncError::NotAChain)
    );
    assert_eq!(
        master.resync(vec![second.clone(), first.clone()]),
        Err(ResyncError::NotAChain)
    );
    assert_eq!(master.pot_state.tip(), Some(&first));
    assert_eq!(master.pot_state.len(), 1);
    assert_eq!(master.resync(vec![second, third.clone()]), Ok(()));
    assert_eq!(master.pot_state.tip(), Some(&third));
}

#[test]
fn event_of_a_local_proof_gossips_it() {
    let mut master = bootstrapped();
    let produced = create(&master.next_proof_request().unwrap());
    assert_eq!(master.on_proof_produced(&produced), Ok(()));
    let action = master.on_event(ClockMasterEvent::LocalProof(produced.clone()));
    assert_eq!(action, ClockMasterAction::Gossip(produced.encode()));
    assert!(master.gossip.validator.message_allowed(
        &peer(),
        MessageIntent::Broadcast,
        &topic(),
        &produced.encode()
    ));
    assert_eq!(master.pot_state.len(), 2);
    assert!(!master.should_exit);
}

#[test]
fn event_of_a_message_gossips_what_is_accepted() {
    let mut master = bootstrapped();
    let tip = master.pot_state.tip().unwrap().clone();
    let theirs = successor(&tip, 0x33);
    let action = master.on_event(ClockMasterEvent::Notification {
        sender: Some(peer()),
        message: theirs.encode(),
    });
    assert_eq!(action, ClockMasterAction::Gossip(theirs.encode()));
    assert_eq!(master.pot_state.tip(), Some(&theirs));
    let action = master.on_event(ClockMasterEvent::Notification {
        sender: Some(peer()),
        message: theirs.encode(),
    });
    assert_eq!(
        action,
        ClockMasterAction::Ignore(GossipError::Rejected(PotStateError::Duplicate))
    );
    let action = master.on_event(ClockMasterEvent::Notification {
        sender: None,
        message: successor(&theirs, 0x34).encode(),
    });
    assert_eq!(action, ClockMasterAction::Ignore(GossipError::NoSender));
    let action = master.on_event(ClockMasterEvent::Notification {
        sender: Some(peer()),
        message: vec![1, 2, 3],
    });
    assert_eq!(action, ClockMasterAction::Ignore(GossipError::Undecodable));
    assert_eq!(master.pot_state.tip(), Some(&theirs));
    assert_eq!(master.pot_state.len(), 2);
}

#[test]
fn event_of_the_stopped_transport_ends_the_loop() {
    let mut master = bootstrapped();
    let action = master.on_event(ClockMasterEvent::EngineTerminated);
    assert_eq!(action, ClockMasterAction::Exit);
    assert!(master.should_exit);
    assert_eq!(master.next_proof_request(), None);
    let tip = master.pot_state.tip().unwrap().clone();
    let action = master.on_event(ClockMasterEvent::LocalProof(tip.clone()));
    assert_eq!(action, ClockMasterAction::Gossip(tip.encode()));
    assert!(master.should_exit);
}

#[test]
fn next_request_follows_the_tip() {
    let master = bootstrapped();
    let tip = master.pot_state.tip().unwrap().clone();
    let request = master.next_proof_request().unwrap();
    assert_eq!(request.slot_number, 6);
    assert_eq!(request.seed, tip.next_seed());
    assert_eq!(request.key, tip.next_key());
    assert_eq!(request.injected_block_hash, GENESIS_HASH);
    assert!(request.is_answered_by(&create(&request)));
    assert!(!request.is_answered_by(&tip));
}

#[test]
fn no_request_after_the_last_slot() {
    let mut master = ClockMaster::new(PotComponents::new(), PotGossip::new());
    let last = PotProof::new(
        u64::MAX,
        PotSeed([1; 16]),
        PotKey([2; 16]),
        vec![PotCheckpoint([3; 16])],
        [4; 32],
    )
    .unwrap();
    assert_eq!(master.resync(vec![last]), Ok(()));
    assert_eq!(master.next_proof_request(), None);
}

#[test]
fn three_rounds_hand_off_slots_six_seven_eight() {
    let mut master = bootstrapped();
    let (sender, receiver) = sync_channel::<PotProof>(PROOFS_CHANNEL_SIZE);
    for _ in 0..3 {
        let request = master.next_proof_request().unwrap();
        let produced = create(&request);
        assert_eq!(master.on_proof_produced(&produced), Ok(()));
        sender.try_send(produced).unwrap();
    }
    let mut previous = create(&params().proof_request());
    for slot_number in [6u64, 7, 8] {
        let handed = receiver.try_recv().unwrap();
        assert_eq!(handed.slot_number(), slot_number);
        assert_eq!(handed.slot_number(), previous.slot_number() + 1);
        assert_eq!(handed.seed(), previous.next_seed());
        assert_eq!(handed.key(), previous.next_key());
        assert!(previous.is_extended_by(&handed));
        previous = handed;
    }
    assert!(receiver.try_recv().is_err());
    assert_eq!(master.pot_state.tip(), Some(&previous));
    assert_eq!(master.pot_state.len(), 4);
}

#[test]
fn produced_proof_is_refused_after_the_tip_moved() {
    let mut master = bootstrapped();
    let request = master.next_proof_request().unwrap();
    let produced = create(&request);
    let tip = master.pot_state.tip().unwrap().clone();
    let theirs = successor(&tip, 0x33);
    assert!(master.on_gossip_message(&peer(), &theirs).is_ok());
    let theirs_next = successor(&theirs, 0x34);
    assert!(master.on_gossip_message(&peer(), &theirs_next).is_ok());
    assert_eq!(
        master.on_proof_produced(&produced),
        Err(PotStateError::UnexpectedSlot)
    );
    assert_eq!(master.pot_state.tip(), Some(&theirs_next));
    assert_eq!(master.next_proof_request().unwrap().slot_number, 8);
}

#[test]
fn local_proof_is_armed_for_one_pass() {
    let mut master = bootstrapped();
    let produced = create(&master.next_proof_request().unwrap());
    assert_eq!(master.on_proof_produced(&produced), Ok(()));
    let message = master.on_local_proof(&produced);
    assert_eq!(message, produced.encode());
    let validator = &mut master.gossip.validator;
    assert!(!validator.message_expired(&topic(), &message));
    assert!(validator.message_allowed(&peer(), MessageIntent::Broadcast, &topic(), &message));
    assert!(!validator.message_allowed(&peer(), MessageIntent::Broadcast, &topic(), &message));
}

#[test]
fn accepted_peer_proof_is_sent_on() {
    let mut master = bootstrapped();
    let tip = master.pot_state.tip().unwrap().clone();
    let theirs = successor(&tip, 0x33);
    let forward = master.on_gossip_message(&peer(), &theirs).unwrap();
    assert_eq!(forward, theirs.encode());
    assert_eq!(master.pot_state.tip(), Some(&theirs));
    let validator = &mut master.gossip.validator;
    assert!(validator.message_allowed(&peer(), MessageIntent::Broadcast, &topic(), &forward));
    assert!(!validator.message_allowed(&peer(), MessageIntent::Broadcast, &topic(), &forward));
}

#[test]
fn refused_peer_proof_is_not_sent_on() {
    let mut master = bootstrapped();
    let tip = master.pot_state.tip().unwrap().clone();
    let far = PotProof::new(
        16,
        PotSeed([1; 16]),
        PotKey([2; 16]),
        vec![PotCheckpoint([3; 16])],
        [4; 32],
    )
    .unwrap();
    assert_eq!(
        master.on_gossip_message(&peer(), &far),
        Err(PotStateError::TooFarInFuture)
    );
    assert_eq!(master.pot_state.tip(), Some(&tip));
    assert!(!master.gossip.validator.message_allowed(
        &peer(),
        MessageIntent::Broadcast,
        &topic(),
        &far.encode()
    ));
    let theirs = successor(&tip, 0x33);
    assert!(master.on_gossip_message(&peer(), &theirs).is_ok());
    assert!(master.gossip.validator.message_allowed(
        &peer(),
        MessageIntent::Broadcast,
        &topic(),
        &theirs.encode()
    ));
    assert_eq!(
        master.on_gossip_message(&peer(), &theirs),
        Err(PotStateError::Duplicate)
    );
    assert!(!master.gossip.validator.message_allowed(
        &peer(),
        MessageIntent::Broadcast,
        &topic(),
        &theirs.encode()
    ));
}

#[test]
fn notification_without_sender_is_dropped() {
    let mut master = bootstrapped();
    let tip = master.pot_state.tip().unwrap().clone();
    let theirs = successor(&tip, 0x33);
    assert_eq!(
        master.on_gossip_notification(None, &theirs.encode()),
        Err(GossipError::NoSender)
    );
    assert_eq!(master.pot_state.tip(), Some(&tip));
    assert_eq!(master.pot_state.len(), 1);
}

#[test]
fn notification_that_is_no_proof_is_dropped() {
    let mut master = bootstrapped();
    let tip = master.pot_state.tip().unwrap().clone();
    let mut message = successor(&tip, 0x33).encode();
    message.push(0);
    assert_eq!(
        master.on_gossip_notification(Some(&peer()), &message),
        Err(GossipError::Undecodable)
    );
    assert_eq!(
        master.on_gossip_notification(Some(&peer()), &[]),
        Err(GossipError::Undecodable)
    );
    assert_eq!(master.pot_state.tip(), Some(&tip));
    assert_eq!(master.pot_state.len(), 1);
    assert!(!master.gossip.validator.message_allowed(
        &peer(),
        MessageIntent::Broadcast,
        &topic(),
        &message
    ));
}

#[test]
fn notification_with_a_proof_goes_to_the_state() {
    let mut master = bootstrapped();
    let tip = master.pot_state.tip().unwrap().clone();
    let theirs = successor(&tip, 0x33);
    let message = theirs.encode();
    assert_eq!(
        master.on_gossip_notification(Some(&peer()), &message),
        Ok(message.clone())
    );
    assert_eq!(master.pot_state.tip(), Some(&theirs));
    assert_eq!(
        master.on_gossip_notification(Some(&peer()), &message),
        Err(GossipError::Rejected(PotStateError::Duplicate))
    );
    let stranger = PotProof::new(
        7,
        PotSeed([1; 16]),
        PotKey([2; 16]),
        vec![PotCheckpoint([3; 16])],
        [4; 32],
    )
    .unwrap();
    assert_eq!(
        master.on_gossip_notification(Some(&peer()), &stranger.encode()),
        Err(GossipError::Rejected(PotStateError::Unlinkable))
    );
    assert_eq!(master.pot_state.tip(), Some(&theirs));
}

#[test]
fn stopped_transport_stops_the_computation() {
    let mut master = bootstrapped();
    assert!(master.next_proof_request().is_some());
    master.on_gossip_engine_terminated();
    assert!(master.should_exit);
    assert_eq!(master.next_proof_request(), None);
    assert_eq!(master.pot_state.len(), 1);
}

#[test]
fn channel_holds_a_hundred_proofs() {
    assert_eq!(PROOFS_CHANNEL_SIZE, 100);
}

#[test]
fn client_records_and_sends_nothing_on() {
    let first = create(&params().proof_request());
    let mut client = PotClient::new(PotComponents::new(), PotGossip::new());
    assert!(client.pot_state.is_empty());
    assert_eq!(client.resync(vec![]), Err(ResyncError::NotAChain));
    assert!(client.pot_state.is_empty());
    assert_eq!(client.resync(vec![first.clone()]), Ok(()));
    assert_eq!(client.pot_state.tip(), Some(&first));
    let theirs = successor(&first, 0x33);
    assert_eq!(client.on_gossip_message(&peer(), &theirs), Ok(()));
    assert_eq!(client.pot_state.tip(), Some(&theirs));
    assert!(!client.gossip.validator.message_allowed(
        &peer(),
        MessageIntent::Broadcast,
        &topic(),
        &theirs.encode()
    ));
    assert_eq!(
        client.on_gossip_message(&peer(), &theirs),
        Err(PotStateError::Duplicate)
    );
}

#[test]
fn client_drops_what_is_no_proof_or_has_no_sender() {
    let first = create(&params().proof_request());
    let mut client = PotClient::new(PotComponents::new(), PotGossip::new());
    assert_eq!(client.resync(vec![first.clone()]), Ok(()));
    let theirs = successor(&first, 0x33);
    assert_eq!(
        client.on_gossip_notification(None, &theirs.encode()),
        Err(GossipError::NoSender)
    );
    assert_eq!(
        client.on_gossip_notification(Some(&peer()), b"not a proof"),
        Err(GossipError::Undecodable)
    );
    assert_eq!(client.pot_state.tip(), Some(&first));
    assert_eq!(
        client.on_gossip_notification(Some(&peer()), &theirs.encode()),
        Ok(())
    );
    assert_eq!(client.pot_state.tip(), Some(&theirs));
    let far = PotProof::new(
        100,
        PotSeed([1; 16]),
        PotKey([2; 16]),
        vec![PotCheckpoint([3; 16])],
        [4; 32],
    )
    .unwrap();
    assert_eq!(
        client.on_gossip_notification(Some(&peer()), &far.encode()),
        Err(GossipError::Rejected(PotStateError::TooFarInFuture))
    );
    assert_eq!(client.pot_state.tip(), Some(&theirs));
}

#[test]
fn client_events() {
    let first = create(&params().proof_request());
    let mut client = PotClient::new(PotComponents::new(), PotGossip::new());
    assert_eq!(client.resync(vec![first.clone()]), Ok(()));
    let theirs = successor(&first, 0x33);
    let action = client.on_event(PotClientEvent::Notification {
        sender: Some(peer()),
        message: theirs.encode(),
    });
    assert_eq!(action, PotClientAction::Recorded);
    assert_eq!(client.pot_state.tip(), Some(&theirs));
    assert!(client
        .gossip
        .validator
        .message_expired(&topic(), &theirs.encode()));
    let action = client.on_event(PotClientEvent::Notification {
        sender: Some(peer()),
        message: theirs.encode(),
    });
    assert_eq!(
        action,
        PotClientAction::Ignore(GossipError::Rejected(PotStateError::Duplicate))
    );
    let action = client.on_event(PotClientEvent::Notification {
        sender: None,
        message: theirs.encode(),
    });
    assert_eq!(action, PotClientAction::Ignore(GossipError::NoSender));
    let action = client.on_event(PotClientEvent::Notification {
        sender: Some(peer()),
        message: vec![],
    });
    assert_eq!(action, PotClientAction::Ignore(GossipError::Undecodable));
    assert_eq!(client.on_event(PotClientEvent::EngineTerminated), PotClientAction::Exit);
    assert_eq!(client.pot_state.tip(), Some(&theirs));
    assert_eq!(client.pot_state.len(), 2);
}
