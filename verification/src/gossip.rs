//! Gossip of proofs: who sent a message, which messages are worth keeping, and
//! which may be sent on.
//!
//! A message that this node hands to the transport is armed first: its digest is
//! put in the pending set. The transport may send an armed message on once, which
//! disarms it. So each message leaves this node once for each time it was armed.

use crate::codec::{decode_proof, is_encoding};
use crate::hashing::{blake2b_256_digest, blake2b_256_hash};
use crate::primitives::{bytes_eq, PotProof, ProofView};
use crate::state::{PotStateError, ProtocolStateView};
use vstd::prelude::*;
use vstd::string::StringSliceAdditionalSpecFns;

verus! {

/// Name of the gossip protocol of proofs of time.
pub const GOSSIP_PROTOCOL: &'static str = "/subspace/subspace-proof-of-time";

/// What the topic of the gossip is the digest of.
pub const GOSSIP_TOPIC_TAG: &'static str = "subspace-proof-of-time-gossip";

/// Largest message that the gossip protocol carries, in bytes.
pub const MAX_NOTIFICATION_SIZE: u64 = 5 * 1024 * 1024;

/// Number of peers that may connect to this node for the gossip, and as many that
/// this node may connect to.
pub const NON_RESERVED_PEERS: u32 = 25;

/// Digest of a message.
pub type MessageHash = [u8; 32];

/// Name of a peer of the gossip network, as the bytes that the transport knows it by.
#[derive(Debug, PartialEq, Eq)]
pub struct PeerId {
    bytes: Vec<u8>,
}

impl View for PeerId {
    type V = Seq<u8>;

    closed spec fn view(&self) -> Seq<u8> {
        self.bytes@
    }
}

impl PeerId {
    /// The peer that the transport knows by `bytes`.
    pub fn from_bytes(bytes: Vec<u8>) -> (peer: Self)
        ensures
            peer@ == bytes@,
    {
        PeerId { bytes }
    }

    /// The bytes that the transport knows the peer by.
    pub fn as_bytes(&self) -> (bytes: &Vec<u8>)
        ensures
            bytes@ == self@,
    {
        &self.bytes
    }
}

/// What the transport is to do with a message that came in.
#[derive(Debug, Clone, Copy, PartialEq, Eq, Structural)]
pub enum ValidationResult {
    /// Hand the message to this node and keep it for other peers.
    ProcessAndKeep,
    /// Drop the message.
    Discard,
}

/// Why the transport wants to send a message to a peer.
#[derive(Debug, Clone, Copy, PartialEq, Eq, Structural)]
pub enum MessageIntent {
    /// The message is sent to the peer for the first time.
    Broadcast,
    /// The message is sent whether or not the peer has it.
    ForcedBroadcast,
    /// The message is sent again after a while.
    PeriodicRebroadcast,
}

/// Why a message of the gossip was not taken.
#[derive(Debug, Clone, Copy, PartialEq, Eq, Structural)]
pub enum GossipError {
    /// The transport does not know who sent the message.
    NoSender,
    /// The message is not the wire form of a proof.
    Undecodable,
    /// The message is a proof, and the protocol state refused it.
    Rejected(PotStateError),
}

/// What becomes of a message of the gossip: the proof that is accepted, or why none is.
pub open spec fn gossip_verdict(state: ProtocolStateView, has_sender: bool, message: Seq<u8>) -> Result<
    ProofView,
    GossipError,
> {
    if !has_sender {
        Err(GossipError::NoSender)
    } else {
        match decode_proof(message) {
            None => Err(GossipError::Undecodable),
            Some(candidate) => match state.peer_verdict(candidate) {
                Ok(()) => Ok(candidate),
                Err(error) => Err(GossipError::Rejected(error)),
            },
        }
    }
}

/// The limits of the peer set that the gossip runs on.
#[derive(Debug, PartialEq, Eq)]
pub struct GossipPeersSetConfig {
    /// Name of the protocol.
    pub protocol: &'static str,
    /// Largest message, in bytes.
    pub max_notification_size: u64,
    /// Number of peers that may connect to this node.
    pub in_peers: u32,
    /// Number of peers that this node may connect to.
    pub out_peers: u32,
}

/// The pending set after `message` was armed.
pub open spec fn armed(pending: Set<Seq<u8>>, message: Seq<u8>) -> Set<Seq<u8>> {
    pending.insert(blake2b_256_digest(message))
}

/// Whether `message` is armed.
pub open spec fn is_armed(pending: Set<Seq<u8>>, message: Seq<u8>) -> bool {
    pending.contains(blake2b_256_digest(message))
}

/// The pending set after `message` was disarmed.
pub open spec fn disarmed(pending: Set<Seq<u8>>, message: Seq<u8>) -> Set<Seq<u8>> {
    pending.remove(blake2b_256_digest(message))
}

/// A message that was armed may be sent on, and once it was, it may not be sent
/// on again until it is armed again.
pub proof fn lemma_armed_once(pending: Set<Seq<u8>>, message: Seq<u8>)
    ensures
        is_armed(armed(pending, message), message),
        !is_armed(disarmed(armed(pending, message), message), message),
{
}

/// Arming a message twice is arming it once: after it was sent on once, it is
/// not armed.
pub proof fn lemma_armed_twice(pending: Set<Seq<u8>>, message: Seq<u8>)
    ensures
        armed(armed(pending, message), message) == armed(pending, message),
{
    assert(armed(armed(pending, message), message) =~= armed(pending, message));
}

/// The digests that `pending` holds.
pub open spec fn pending_view(pending: Seq<MessageHash>) -> Set<Seq<u8>> {
    Set::new(|digest: Seq<u8>| exists|i: int| 0 <= i < pending.len() && (#[trigger] pending[i])@ == digest)
}

/// Judges the messages of the gossip, and remembers which of them are armed.
#[derive(Debug)]
pub struct PotGossipValidator {
    pending: Vec<MessageHash>,
}

impl View for PotGossipValidator {
    type V = Set<Seq<u8>>;

    closed spec fn view(&self) -> Set<Seq<u8>> {
        pending_view(self.pending@)
    }
}

impl PotGossipValidator {
    /// No digest is held twice.
    #[verifier::type_invariant]
    spec fn inv(self) -> bool {
        forall|i: int, j: int|
            0 <= i < j < self.pending.len() ==> (#[trigger] self.pending[i])@ != (#[trigger] self.pending[j])@
    }

    /// The validator with no message armed.
    pub fn new() -> (validator: Self)
        ensures
            validator@ == Set::<Seq<u8>>::empty(),
    {
        let validator = PotGossipValidator { pending: Vec::new() };
        assert(validator@ =~= Set::<Seq<u8>>::empty());
        validator
    }

    /// Where `digest` is held, if it is.
    fn position(&self, digest: &MessageHash) -> (at: Option<usize>)
        ensures
            at is Some <==> self@.contains(digest@),
            at matches Some(i) ==> i < self.pending.len() && self.pending[i as int]@ == digest@,
    {
        let mut i: usize = 0;
        while i < self.pending.len()
            invariant
                i <= self.pending.len(),
                forall|k: int| 0 <= k < i ==> (#[trigger] self.pending[k])@ != digest@,
            decreases self.pending.len() - i,
        {
            if bytes_eq(self.pending[i].as_slice(), digest.as_slice()) {
                return Some(i);
            }
            i += 1;
        }
        None
    }

    /// Arms `message`: the transport may send it on once.
    pub fn on_broadcast(&mut self, message: &[u8])
        ensures
            final(self)@ == armed(old(self)@, message@),
    {
        proof {
            use_type_invariant(&*self);
        }
        let digest = blake2b_256_hash(message);
        if self.position(&digest).is_none() {
            let ghost before = self.pending@;
            let mut pending: Vec<MessageHash> = Vec::new();
            core::mem::swap(&mut pending, &mut self.pending);
            pending.push(digest);
            self.pending = pending;
            proof {
                let after = self.pending@;
                assert(after[before.len() as int] == digest);
                assert forall|d: Seq<u8>| self@.contains(d) <==> armed(old(self)@, message@).contains(
                    d,
                ) by {
                    if old(self)@.contains(d) {
                        let i = choose|i: int| 0 <= i < before.len() && (#[trigger] before[i])@ == d;
                        assert(after[i]@ == d);
                    }
                }
                assert(self@ =~= armed(old(self)@, message@));
            }
        } else {
            assert(self@ =~= armed(old(self)@, message@));
        }
    }

    /// Judges a message that came in from `sender`: it is kept where it is the wire
    /// form of a proof, and dropped where it is not.
    pub fn validate(&self, sender: &PeerId, data: &[u8]) -> (verdict: ValidationResult)
        ensures
            verdict == (if is_encoding(data@) {
                ValidationResult::ProcessAndKeep
            } else {
                ValidationResult::Discard
            }),
    {
        match PotProof::decode(data) {
            Some(_) => ValidationResult::ProcessAndKeep,
            None => ValidationResult::Discard,
        }
    }

    /// Whether the transport may forget a message of `topic`: it may, unless the
    /// message is armed.
    pub fn message_expired(&self, topic: &[u8], data: &[u8]) -> (expired: bool)
        ensures
            expired == !is_armed(self@, data@),
    {
        let digest = blake2b_256_hash(data);
        self.position(&digest).is_none()
    }

    /// Whether the transport may send a message of `topic` to the peer `who`: it
    /// may where the message is armed, and the message is then disarmed.
    pub fn message_allowed(
        &mut self,
        who: &PeerId,
        intent: MessageIntent,
        topic: &[u8],
        data: &[u8],
    ) -> (allowed: bool)
        ensures
            allowed == is_armed(old(self)@, data@),
            final(self)@ == disarmed(old(self)@, data@),
    {
        proof {
            use_type_invariant(&*self);
        }
        let digest = blake2b_256_hash(data);
        match self.position(&digest) {
            Some(at) => {
                let ghost before = self.pending@;
                let mut pending: Vec<MessageHash> = Vec::new();
                core::mem::swap(&mut pending, &mut self.pending);
                pending.remove(at);
                self.pending = pending;
                proof {
                    let after = self.pending@;
                    assert forall|d: Seq<u8>| self@.contains(d) <==> disarmed(
                        old(self)@,
                        data@,
                    ).contains(d) by {
                        if self@.contains(d) {
                            let i = choose|i: int| 0 <= i < after.len() && (#[trigger] after[i])@ == d;
                            if i < at {
                                assert(before[i]@ == d);
                            } else {
                                assert(before[i + 1]@ == d);
                            }
                        }
                        if old(self)@.contains(d) && d != digest@ {
                            let i = choose|i: int| 0 <= i < before.len() && (#[trigger] before[i])@ == d;
                            if i < at {
                                assert(after[i]@ == d);
                            } else {
                                assert(after[i - 1]@ == d);
                            }
                        }
                    }
                    assert(self@ =~= disarmed(old(self)@, data@));
                }
                true
            },
            None => {
                assert(self@ =~= disarmed(old(self)@, data@));
                false
            },
        }
    }
}

/// The gossip of proofs, as far as this node decides on it: the validator that the
/// transport asks.
#[derive(Debug)]
pub struct PotGossip {
    /// Judges the messages and remembers which of them are armed.
    pub validator: PotGossipValidator,
}

impl PotGossip {
    /// The gossip with no message armed.
    pub fn new() -> (gossip: Self)
        ensures
            gossip.validator@ == Set::<Seq<u8>>::empty(),
    {
        PotGossip { validator: PotGossipValidator::new() }
    }
}

/// The topic that proofs are gossiped under.
pub fn topic() -> (topic: MessageHash)
    ensures
        topic@ == blake2b_256_digest(GOSSIP_TOPIC_TAG.spec_bytes()),
{
    blake2b_256_hash(GOSSIP_TOPIC_TAG.as_bytes())
}

/// The limits of the peer set that proofs are gossiped on.
pub fn pot_gossip_peers_set_config() -> (config: GossipPeersSetConfig)
    ensures
        config == (GossipPeersSetConfig {
            protocol: GOSSIP_PROTOCOL,
            max_notification_size: MAX_NOTIFICATION_SIZE,
            in_peers: NON_RESERVED_PEERS,
            out_peers: NON_RESERVED_PEERS,
        }),
{
    GossipPeersSetConfig {
        protocol: GOSSIP_PROTOCOL,
        max_notification_size: MAX_NOTIFICATION_SIZE,
        in_peers: NON_RESERVED_PEERS,
        out_peers: NON_RESERVED_PEERS,
    }
}

} // verus!
