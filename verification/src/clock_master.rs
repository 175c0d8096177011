//! The clock master: the node that produces proofs.
//!
//! A clock master starts from a chain, made from the genesis block or taken from the
//! host chain. From then on it asks the sequential computation for the proof after
//! the tip, takes what comes back, and gossips what it accepted, its own proofs and
//! those of its peers.

use crate::chain::{is_chain, proofs_view, ProofChain, ResyncError};
use crate::codec::{encode_proof, is_encoding};
use crate::gossip::{armed, gossip_verdict, GossipError, PeerId, PotGossip};
use crate::primitives::{
    bytes_eq, seed_from_block_hash, BlockHash, PotKey, PotProof, PotSeed, ProofView, SlotNumber,
};
use crate::state::{PotProtocolState, PotStateError, ProtocolStateView};
use crate::PotComponents;
use vstd::prelude::*;

verus! {

/// Number of proofs that may wait between the computation and the gossip. When as
/// many wait, the computation waits too.
pub const PROOFS_CHANNEL_SIZE: usize = 100;

/// What the chain starts from.
#[derive(Debug, Clone, Copy, PartialEq, Eq)]
pub struct BootstrapParams {
    /// Hash of the genesis block.
    pub genesis_hash: BlockHash,
    /// Key of the first proof.
    pub key: PotKey,
    /// Slot of the first proof.
    pub slot: SlotNumber,
}

/// What the sequential computation is asked for: the proof of `slot_number` from
/// `seed` under `key`, carrying `injected_block_hash`.
#[derive(Debug, Clone, Copy, PartialEq, Eq)]
pub struct ProofRequest {
    /// Seed to start from.
    pub seed: PotSeed,
    /// Key to run under.
    pub key: PotKey,
    /// Slot that the proof is for.
    pub slot_number: SlotNumber,
    /// Hash that the proof is to carry.
    pub injected_block_hash: BlockHash,
}

impl ProofRequest {
    /// The request asks for the first proof of the chain that `params` describe.
    pub open spec fn starts(self, params: BootstrapParams) -> bool {
        &&& self.seed@ == seed_from_block_hash(params.genesis_hash@)
        &&& self.key@ == params.key@
        &&& self.slot_number == params.slot
        &&& self.injected_block_hash@ == params.genesis_hash@
    }

    /// The request asks for the proof after `tip`.
    pub open spec fn follows(self, tip: ProofView) -> bool {
        &&& self.seed@ == tip.next_seed()
        &&& self.key@ == tip.next_key()
        &&& self.slot_number == tip.slot_number + 1
        &&& self.injected_block_hash@ == tip.injected_block_hash
    }

    /// `answer` is a proof of what the request asks for.
    pub open spec fn answered_by(self, answer: ProofView) -> bool {
        &&& answer.seed == self.seed@
        &&& answer.key == self.key@
        &&& answer.slot_number == self.slot_number
        &&& answer.injected_block_hash == self.injected_block_hash@
    }

    /// Whether `answer` is a proof of what the request asks for.
    pub fn is_answered_by(&self, answer: &PotProof) -> (yes: bool)
        ensures
            yes == self.answered_by(answer@),
    {
        answer.slot_number() == self.slot_number && bytes_eq(
            answer.seed().0.as_slice(),
            self.seed.0.as_slice(),
        ) && bytes_eq(answer.key().0.as_slice(), self.key.0.as_slice()) && bytes_eq(
            answer.injected_block_hash().as_slice(),
            self.injected_block_hash.as_slice(),
        )
    }
}

/// A proof of what was asked for after `tip` extends `tip`.
pub proof fn lemma_answer_extends(request: ProofRequest, tip: ProofView, answer: ProofView)
    requires
        request.follows(tip),
        request.answered_by(answer),
    ensures
        tip.extended_by(answer),
{
}

/// A proof of what was asked for after the tip is accepted as long as the tip is
/// the same.
pub proof fn lemma_answer_accepted(state: ProtocolStateView, request: ProofRequest, answer: ProofView)
    requires
        state.tip matches Some(tip) && request.follows(tip),
        request.answered_by(answer),
    ensures
        state.local_verdict(answer) is Ok,
{
}

impl BootstrapParams {
    /// `first` is a proof of what the chain starts with: it is for the slot and
    /// under the key of the parameters, from the seed that the genesis block gives,
    /// and carries the hash of the genesis block.
    pub open spec fn started_by(self, first: ProofView) -> bool {
        &&& first.seed == seed_from_block_hash(self.genesis_hash@)
        &&& first.key == self.key@
        &&& first.slot_number == self.slot
        &&& first.injected_block_hash == self.genesis_hash@
    }

    /// The parameters of a chain that starts at `slot` under `key`.
    pub fn new(genesis_hash: BlockHash, key: PotKey, slot: SlotNumber) -> (params: Self)
        ensures
            params == (BootstrapParams { genesis_hash, key, slot }),
    {
        BootstrapParams { genesis_hash, key, slot }
    }

    /// What to ask the sequential computation for to get the first proof.
    pub fn proof_request(&self) -> (request: ProofRequest)
        ensures
            request.starts(*self),
    {
        ProofRequest {
            seed: PotSeed::from_block_hash(self.genesis_hash),
            key: self.key,
            slot_number: self.slot,
            injected_block_hash: self.genesis_hash,
        }
    }
}

/// Why a clock master did not start its chain.
#[derive(Debug, Clone, Copy, PartialEq, Eq, Structural)]
pub enum BootstrapError {
    /// The first proof is not a proof of what the parameters ask for.
    UnexpectedProof,
}

/// What the event loop of a clock master waits for.
#[derive(Debug)]
pub enum ClockMasterEvent {
    /// The computation handed over a proof that the protocol state accepted.
    LocalProof(PotProof),
    /// The transport delivered a message.
    Notification {
        /// Who sent the message, where the transport knows.
        sender: Option<PeerId>,
        /// The bytes of the message.
        message: Vec<u8>,
    },
    /// The transport has stopped.
    EngineTerminated,
}

/// What the event loop of a clock master is to do after an event.
#[derive(Debug, PartialEq, Eq)]
pub enum ClockMasterAction {
    /// Hand the message to the transport to be sent to the peers.
    Gossip(Vec<u8>),
    /// Do nothing: the message was not taken.
    Ignore(GossipError),
    /// Leave the loop.
    Exit,
}

/// What follows an event in the loop of a clock master, as values: the state, the
/// armed messages and the stop flag afterwards, and what the loop is to do.
pub open spec fn clock_master_step(
    state: ProtocolStateView,
    pending: Set<Seq<u8>>,
    event: ClockMasterEvent,
) -> (ProtocolStateView, Set<Seq<u8>>, bool, Option<Seq<u8>>) {
    match event {
        ClockMasterEvent::LocalProof(produced) => (
            state,
            armed(pending, encode_proof(produced@)),
            false,
            Some(encode_proof(produced@)),
        ),
        ClockMasterEvent::Notification { sender, message } => match gossip_verdict(
            state,
            sender is Some,
            message@,
        ) {
            Ok(candidate) => (state.accept(candidate), armed(pending, message@), false, Some(message@)),
            Err(_) => (state, pending, false, None),
        },
        ClockMasterEvent::EngineTerminated => (state, pending, true, None),
    }
}

/// The clock master: the protocol state, the validator of the gossip, and whether
/// the computation is to stop.
#[derive(Debug)]
pub struct ClockMaster {
    /// The protocol state.
    pub pot_state: PotProtocolState,
    /// The gossip.
    pub gossip: PotGossip,
    /// Set when the transport has stopped: the computation is to stop too.
    pub should_exit: bool,
}

impl ClockMaster {
    /// The clock master over the state of `components`.
    pub fn new(components: PotComponents, gossip: PotGossip) -> (master: Self)
        ensures
            master.pot_state == components.protocol_state,
            master.gossip == gossip,
            !master.should_exit,
    {
        ClockMaster { pot_state: components.protocol_state, gossip, should_exit: false }
    }

    /// Starts the chain with `first`, the proof that the sequential computation gave
    /// for the request of `params`. A proof of anything else is refused.
    pub fn add_bootstrap_proof(&mut self, params: &BootstrapParams, first: PotProof) -> (result: Result<
        (),
        BootstrapError,
    >)
        ensures
            final(self).gossip.validator@ == old(self).gossip.validator@,
            final(self).should_exit == old(self).should_exit,
            result is Ok <==> params.started_by(first@),
            final(self).pot_state@ == (if result is Ok {
                old(self).pot_state@.installed(seq![first@])
            } else {
                old(self).pot_state@
            }),
    {
        let request = params.proof_request();
        if !request.is_answered_by(&first) {
            return Err(BootstrapError::UnexpectedProof);
        }
        self.pot_state.reset(ProofChain::single(first));
        Ok(())
    }

    /// Starts from `proofs`, the proofs that the tip of the host chain holds, oldest
    /// first. They are installed where they are a chain, and refused where not.
    pub fn resync(&mut self, proofs: Vec<PotProof>) -> (result: Result<(), ResyncError>)
        ensures
            final(self).gossip.validator@ == old(self).gossip.validator@,
            final(self).should_exit == old(self).should_exit,
            result is Ok <==> is_chain(proofs_view(proofs@)),
            final(self).pot_state@ == (if result is Ok {
                old(self).pot_state@.installed(proofs_view(proofs@))
            } else {
                old(self).pot_state@
            }),
    {
        match ProofChain::new(proofs) {
            Some(chain) => {
                self.pot_state.reset(chain);
                Ok(())
            },
            None => Err(ResyncError::NotAChain),
        }
    }

    /// What to ask the sequential computation for next: the proof after the tip.
    /// There is nothing to ask for once the transport has stopped, before a chain
    /// was installed, and after the last slot that a slot number can name.
    pub fn next_proof_request(&self) -> (next: Option<ProofRequest>)
        ensures
            next is Some <==> !self.should_exit && (self.pot_state@.tip matches Some(tip)
                && tip.slot_number < u64::MAX),
            next matches Some(request) ==> request.follows(self.pot_state@.tip->0),
    {
        if self.should_exit {
            return None;
        }
        match self.pot_state.tip() {
            None => None,
            Some(tip) => {
                if tip.slot_number() == u64::MAX {
                    None
                } else {
                    Some(
                        ProofRequest {
                            seed: tip.next_seed(),
                            key: tip.next_key(),
                            slot_number: tip.slot_number() + 1,
                            injected_block_hash: tip.injected_block_hash(),
                        },
                    )
                }
            },
        }
    }

    /// Takes the proof that the sequential computation gave. Where the protocol
    /// state accepts it, it is to be handed on to be gossiped; where not, the tip
    /// has moved meanwhile, and the computation starts again from the new tip.
    pub fn on_proof_produced(&mut self, produced: &PotProof) -> (result: Result<(), PotStateError>)
        ensures
            result == old(self).pot_state@.local_verdict(produced@),
            final(self).pot_state@ == (if result is Ok {
                old(self).pot_state@.accept(produced@)
            } else {
                old(self).pot_state@
            }),
            final(self).gossip.validator@ == old(self).gossip.validator@,
            final(self).should_exit == old(self).should_exit,
    {
        self.pot_state.on_proof(produced)
    }

    /// Prepares a proof of this node for the gossip: arms its wire form and gives
    /// it back for the transport to send.
    pub fn on_local_proof(&mut self, produced: &PotProof) -> (message: Vec<u8>)
        ensures
            message@ == encode_proof(produced@),
            is_encoding(message@),
            final(self).gossip.validator@ == armed(old(self).gossip.validator@, message@),
            final(self).pot_state@ == old(self).pot_state@,
            final(self).should_exit == old(self).should_exit,
    {
        let message = produced.encode();
        self.gossip.validator.on_broadcast(message.as_slice());
        message
    }

    /// Takes a proof that `sender` gossiped. Where the protocol state accepts it,
    /// its wire form is armed and given back for the transport to send on; where
    /// not, nothing changes.
    pub fn on_gossip_message(&mut self, sender: &PeerId, candidate: &PotProof) -> (result: Result<
        Vec<u8>,
        PotStateError,
    >)
        ensures
            final(self).should_exit == old(self).should_exit,
            match result {
                Ok(message) => {
                    &&& old(self).pot_state@.peer_verdict(candidate@) is Ok
                    &&& message@ == encode_proof(candidate@)
                    &&& final(self).pot_state@ == old(self).pot_state@.accept(candidate@)
                    &&& final(self).gossip.validator@ == armed(
                        old(self).gossip.validator@,
                        message@,
                    )
                },
                Err(error) => {
                    &&& old(self).pot_state@.peer_verdict(candidate@) == Err::<(), PotStateError>(error)
                    &&& final(self).pot_state@ == old(self).pot_state@
                    &&& final(self).gossip.validator@ == old(self).gossip.validator@
                },
            },
    {
        match self.pot_state.on_proof_from_peer(sender, candidate) {
            Ok(()) => Ok(self.on_local_proof(candidate)),
            Err(error) => Err(error),
        }
    }

    /// Takes a message as the transport delivers it. A message without a sender and
    /// a message that is not the wire form of a proof are dropped before the
    /// protocol state sees them; a proof goes the way of
    /// [`ClockMaster::on_gossip_message`].
    pub fn on_gossip_notification(&mut self, sender: Option<&PeerId>, message: &[u8]) -> (result: Result<
        Vec<u8>,
        GossipError,
    >)
        ensures
            final(self).should_exit == old(self).should_exit,
            match result {
                Ok(forward) => {
                    &&& gossip_verdict(old(self).pot_state@, sender is Some, message@) matches Ok(
                        candidate,
                    )
                    &&& forward@ == message@
                    &&& final(self).pot_state@ == old(self).pot_state@.accept(candidate)
                    &&& final(self).gossip.validator@ == armed(
                        old(self).gossip.validator@,
                        message@,
                    )
                },
                Err(error) => {
                    &&& gossip_verdict(old(self).pot_state@, sender is Some, message@) == Err::<
                        ProofView,
                        GossipError,
                    >(error)
                    &&& final(self).pot_state@ == old(self).pot_state@
                    &&& final(self).gossip.validator@ == old(self).gossip.validator@
                },
            },
    {
        let sender = match sender {
            Some(sender) => sender,
            None => {
                return Err(GossipError::NoSender);
            },
        };
        let candidate = match PotProof::decode(message) {
            Some(candidate) => candidate,
            None => {
                return Err(GossipError::Undecodable);
            },
        };
        match self.on_gossip_message(sender, &candidate) {
            Ok(forward) => Ok(forward),
            Err(error) => Err(GossipError::Rejected(error)),
        }
    }

    /// Takes note that the transport has stopped: the computation is to stop too.
    pub fn on_gossip_engine_terminated(&mut self)
        ensures
            final(self).should_exit,
            final(self).pot_state@ == old(self).pot_state@,
            final(self).gossip.validator@ == old(self).gossip.validator@,
    {
        self.should_exit = true;
    }

    /// Takes one event of the loop and says what the loop is to do. A proof of this
    /// node is armed and gossiped. A message is held against the protocol state;
    /// where it is accepted it is armed and gossiped on. When the transport has
    /// stopped, the computation is told to stop and the loop is left.
    pub fn on_event(&mut self, event: ClockMasterEvent) -> (action: ClockMasterAction)
        ensures
            ({
                let step = clock_master_step(old(self).pot_state@, old(self).gossip.validator@, event);
                &&& final(self).pot_state@ == step.0
                &&& final(self).gossip.validator@ == step.1
                &&& final(self).should_exit == (old(self).should_exit || step.2)
                &&& match action {
                    ClockMasterAction::Gossip(message) => step.3 == Some(message@),
                    ClockMasterAction::Ignore(error) => {
                        &&& event matches ClockMasterEvent::Notification { sender, message }
                        &&& gossip_verdict(old(self).pot_state@, sender is Some, message@) == Err::<
                            ProofView,
                            GossipError,
                        >(error)
                    },
                    ClockMasterAction::Exit => event is EngineTerminated,
                }
            }),
    {
        match event {
            ClockMasterEvent::LocalProof(produced) => ClockMasterAction::Gossip(
                self.on_local_proof(&produced),
            ),
            ClockMasterEvent::Notification { sender, message } => {
                match self.on_gossip_notification(sender.as_ref(), message.as_slice()) {
                    Ok(forward) => ClockMasterAction::Gossip(forward),
                    Err(error) => ClockMasterAction::Ignore(error),
                }
            },
            ClockMasterEvent::EngineTerminated => {
                self.on_gossip_engine_terminated();
                ClockMasterAction::Exit
            },
        }
    }
}

} // verus!
