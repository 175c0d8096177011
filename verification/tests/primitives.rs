use blake2::digest::consts::U32;
use blake2::{Blake2b, Digest};
use sc_proof_of_time::chain::ProofChain;
use sc_proof_of_time::primitives::{bytes_eq, PotCheckpoint, PotKey, PotProof, PotSeed};

fn sample(slot_number: u64) -> PotProof {
    PotProof::new(
        slot_number,
        PotSeed([1u8; 16]),
        PotKey([2u8; 16]),
        vec![PotCheckpoint([3u8; 16]), PotCheckpoint([4u8; 16])],
        [5u8; 32],
    )
    .unwrap()
}

fn successor(previous: &PotProof, filler: u8) -> PotProof {
    PotProof::new(
        previous.slot_number() + 1,
        previous.next_seed(),
        previous.next_key(),
        vec![PotCheckpoint([filler; 16])],
        previous.injected_block_hash(),
    )
    .unwrap()
}

#[test]
fn bytes_eq_compares_content_and_length() {
    assert!(bytes_eq(&[], &[]));
    assert!(bytes_eq(&[1, 2, 3], &[1, 2, 3]));
    assert!(!bytes_eq(&[1, 2, 3], &[1, 2, 4]));
    assert!(!bytes_eq(&[1, 2, 3], &[1, 2]));
    assert!(!bytes_eq(&[], &[0]));
}

#[test]
fn seed_from_block_hash_takes_the_leading_bytes() {
    let mut hash = [0u8; 32];
    for (i, byte) in hash.iter_mut().enumerate() {
        *byte = i as u8;
    }
    let seed = PotSeed::from_block_hash(hash);
    assert_eq!(seed, PotSeed([0, 1, 2, 3, 4, 5, 6, 7, 8, 9, 10, 11, 12, 13, 14, 15]));
}

#[test]
fn proof_needs_a_checkpoint() {
    assert!(PotProof::new(1, PotSeed([0; 16]), PotKey([0; 16]), vec![], [0; 32]).is_none());
    assert!(PotProof::new(
        1,
        PotSeed([0; 16]),
        PotKey([0; 16]),
        vec![PotCheckpoint([0; 16])],
        [0; 32]
    )
    .is_some());
}

#[test]
fn proof_gives_back_what_it_was_made_of() {
    let proof = sample(9);
    assert_eq!(proof.slot_number(), 9);
    assert_eq!(proof.seed(), PotSeed([1u8; 16]));
    assert_eq!(proof.key(), PotKey([2u8; 16]));
    assert_eq!(
        proof.checkpoints(),
        &vec![PotCheckpoint([3u8; 16]), PotCheckpoint([4u8; 16])]
    );
    assert_eq!(proof.injected_block_hash(), [5u8; 32]);
    assert_eq!(proof.output(), PotCheckpoint([4u8; 16]));
}

#[test]
fn next_seed_is_the_last_checkpoint() {
    let proof = sample(9);
    assert_eq!(proof.next_seed(), PotSeed([4u8; 16]));
}

#[test]
fn next_key_is_the_leading_half_of_the_digest_of_the_seed() {
    let proof = sample(9);
    let digest: [u8; 32] = Blake2b::<U32>::digest([1u8; 16]).into();
    let mut expected = [0u8; 16];
    expected.copy_from_slice(&digest[..16]);
    assert_eq!(proof.next_key(), PotKey(expected));
    assert_ne!(proof.next_key(), PotKey([1u8; 16]));
}

#[test]
fn next_key_depends_on_the_seed_alone() {
    let one = sample(9);
    let other = PotProof::new(
        77,
        PotSeed([1u8; 16]),
        PotKey([9u8; 16]),
        vec![PotCheckpoint([8u8; 16])],
        [6u8; 32],
    )
    .unwrap();
    assert_eq!(one.next_key(), other.next_key());
    let third = PotProof::new(
        9,
        PotSeed([7u8; 16]),
        PotKey([2u8; 16]),
        vec![PotCheckpoint([3u8; 16]), PotCheckpoint([4u8; 16])],
        [5u8; 32],
    )
    .unwrap();
    assert_ne!(one.next_key(), third.next_key());
}

#[test]
fn successor_extends_its_predecessor() {
    let first = sample(9);
    let second = successor(&first, 7);
    assert!(first.is_extended_by(&second));
    assert!(!second.is_extended_by(&first));
    assert!(!first.is_extended_by(&first));
}

#[test]
fn extension_needs_the_next_slot_the_seed_and_the_key() {
    let first = sample(9);
    let wrong_slot = PotProof::new(
        11,
        first.next_seed(),
        first.next_key(),
        vec![PotCheckpoint([7u8; 16])],
        [5u8; 32],
    )
    .unwrap();
    assert!(!first.is_extended_by(&wrong_slot));
    let wrong_seed = PotProof::new(
        10,
        PotSeed([0u8; 16]),
        first.next_key(),
        vec![PotCheckpoint([7u8; 16])],
        [5u8; 32],
    )
    .unwrap();
    assert!(!first.is_extended_by(&wrong_seed));
    let wrong_key = PotProof::new(
        10,
        first.next_seed(),
        PotKey([0u8; 16]),
        vec![PotCheckpoint([7u8; 16])],
        [5u8; 32],
    )
    .unwrap();
    assert!(!first.is_extended_by(&wrong_key));
}

#[test]
fn nothing_extends_the_last_slot() {
    let last = sample(u64::MAX);
    let zero = PotProof::new(
        0,
        last.next_seed(),
        last.next_key(),
        vec![PotCheckpoint([7u8; 16])],
        [5u8; 32],
    )
    .unwrap();
    assert!(!last.is_extended_by(&zero));
}

#[test]
fn same_as_compares_every_field() {
    let proof = sample(9);
    assert!(proof.same_as(&sample(9)));
    assert!(!proof.same_as(&sample(10)));
    let other_checkpoints = PotProof::new(
        9,
        PotSeed([1u8; 16]),
        PotKey([2u8; 16]),
        vec![PotCheckpoint([3u8; 16]), PotCheckpoint([0u8; 16])],
        [5u8; 32],
    )
    .unwrap();
    assert!(!proof.same_as(&other_checkpoints));
    let fewer_checkpoints = PotProof::new(
        9,
        PotSeed([1u8; 16]),
        PotKey([2u8; 16]),
        vec![PotCheckpoint([3u8; 16])],
        [5u8; 32],
    )
    .unwrap();
    assert!(!proof.same_as(&fewer_checkpoints));
    let other_hash = PotProof::new(
        9,
        PotSeed([1u8; 16]),
        PotKey([2u8; 16]),
        vec![PotCheckpoint([3u8; 16]), PotCheckpoint([4u8; 16])],
        [0u8; 32],
    )
    .unwrap();
    assert!(!proof.same_as(&other_hash));
}

#[test]
fn clone_holds_the_same_values() {
    let proof = sample(9);
    let copy = proof.clone();
    assert_eq!(copy, proof);
    assert!(copy.same_as(&proof));
}

#[test]
fn chain_of_nothing_is_refused() {
    assert!(ProofChain::new(vec![]).is_none());
}

#[test]
fn chain_of_one_proof() {
    let chain = ProofChain::single(sample(9));
    assert_eq!(chain.len(), 1);
    assert_eq!(chain.last(), &sample(9));
    assert!(ProofChain::new(vec![sample(9)]).is_some());
}

#[test]
fn chain_keeps_linked_proofs_in_order() {
    let first = sample(9);
    let second = successor(&first, 7);
    let third = successor(&second, 8);
    let chain = ProofChain::new(vec![first.clone(), second.clone(), third.clone()]).unwrap();
    assert_eq!(chain.len(), 3);
    assert_eq!(chain.last(), &third);
    assert_eq!(chain.into_proofs(), vec![first, second, third]);
}

#[test]
fn chain_with_a_gap_is_refused() {
    let first = sample(9);
    let second = successor(&first, 7);
    let third = successor(&second, 8);
    assert!(ProofChain::new(vec![first.clone(), third.clone()]).is_none());
    assert!(ProofChain::new(vec![second, first, third]).is_none());
}
