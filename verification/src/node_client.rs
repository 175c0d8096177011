//! The client: the node that follows the clock and produces nothing.

use crate::chain::{is_chain, proofs_view, ProofChain, ResyncError};
use crate::gossip::{gossip_verdict, GossipError, PeerId, PotGossip};
use crate::primitives::{PotProof, ProofView};
use crate::state::{PotProtocolState, PotStateError};
use crate::PotComponents;
use vstd::prelude::*;

verus! {

/// What the event loop of a client waits for.
#[derive(Debug)]
pub enum PotClientEvent {
    /// The transport delivered a message.
    Notification {
        /// Who sent the message, where the transport knows.
        sender: Option<PeerId>,
        /// The bytes of the message.
        message: Vec<u8>,
    },
    /// The transport has stopped.
    EngineTerminated,
}

/// What the event loop of a client is to do after an event.
#[derive(Debug, Clone, Copy, PartialEq, Eq, Structural)]
pub enum PotClientAction {
    /// Go on: the proof of the message was recorded.
    Recorded,
    /// Go on: the message was not taken.
    Ignore(GossipError),
    /// Leave the loop.
    Exit,
}

/// The client: the protocol state and the validator of the gossip.
#[derive(Debug)]
pub struct PotClient {
    /// The protocol state.
    pub pot_state: PotProtocolState,
    /// The gossip.
    pub gossip: PotGossip,
}

impl PotClient {
    /// The client over the state of `components`.
    pub fn new(components: PotComponents, gossip: PotGossip) -> (client: Self)
        ensures
            client.pot_state == components.protocol_state,
            client.gossip == gossip,
    {
        PotClient { pot_state: components.protocol_state, gossip }
    }

    /// Starts from `proofs`, the proofs that the tip of the host chain holds, oldest
    /// first. They are installed where they are a chain, and refused where not.
    pub fn resync(&mut self, proofs: Vec<PotProof>) -> (result: Result<(), ResyncError>)
        ensures
            final(self).gossip.validator@ == old(self).gossip.validator@,
            result is Ok <==> is_chain(proofs_view(proofs@)),
            final(self).pot_state@ == (if result is Ok {
                old(self).pot_state@.installed(proofs_view(proofs@))
            } else {
                old(self).pot_state@
            }),
    {
        match ProofChain::new(proofs) {
            Some(chain) => {
                self.pot_state.reset(chain);
                Ok(())
            },
            None => Err(ResyncError::NotAChain),
        }
    }

    /// Takes a proof that `sender` gossiped, and records it where the protocol
    /// state accepts it. The client sends nothing on.
    pub fn on_gossip_message(&mut self, sender: &PeerId, candidate: &PotProof) -> (result: Result<
        (),
        PotStateError,
    >)
        ensures
            result == old(self).pot_state@.peer_verdict(candidate@),
            final(self).pot_state@ == (if result is Ok {
                old(self).pot_state@.accept(candidate@)
            } else {
                old(self).pot_state@
            }),
            final(self).gossip.validator@ == old(self).gossip.validator@,
    {
        self.pot_state.on_proof_from_peer(sender, candidate)
    }

    /// Takes a message as the transport delivers it. A message without a sender and
    /// a message that is not the wire form of a proof are dropped before the
    /// protocol state sees them; a proof goes the way of
    /// [`PotClient::on_gossip_message`].
    pub fn on_gossip_notification(&mut self, sender: Option<&PeerId>, message: &[u8]) -> (result: Result<
        (),
        GossipError,
    >)
        ensures
            final(self).gossip.validator@ == old(self).gossip.validator@,
            match result {
                Ok(()) => {
                    &&& gossip_verdict(old(self).pot_state@, sender is Some, message@) matches Ok(
                        candidate,
                    )
                    &&& final(self).pot_state@ == old(self).pot_state@.accept(candidate)
                },
                Err(error) => {
                    &&& gossip_verdict(old(self).pot_state@, sender is Some, message@) == Err::<
                        ProofView,
                        GossipError,
                    >(error)
                    &&& final(self).pot_state@ == old(self).pot_state@
                },
            },
    {
        let sender = match sender {
            Some(sender) => sender,
            None => {
                return Err(GossipError::NoSender);
            },
        };
        let candidate = match PotProof::decode(message) {
            Some(candidate) => candidate,
            None => {
                return Err(GossipError::Undecodable);
            },
        };
        match self.on_gossip_message(sender, &candidate) {
            Ok(()) => Ok(()),
            Err(error) => Err(GossipError::Rejected(error)),
        }
    }

    /// Takes one event of the loop and says what the loop is to do. A message is
    /// held against the protocol state and recorded where it is accepted; nothing
    /// is sent on. When the transport has stopped, the loop is left.
    pub fn on_event(&mut self, event: PotClientEvent) -> (action: PotClientAction)
        ensures
            final(self).gossip.validator@ == old(self).gossip.validator@,
            match event {
                PotClientEvent::Notification { sender, message } => match gossip_verdict(
                    old(self).pot_state@,
                    sender is Some,
                    message@,
                ) {
                    Ok(candidate) => {
                        &&& action == PotClientAction::Recorded
                        &&& final(self).pot_state@ == old(self).pot_state@.accept(candidate)
                    },
                    Err(error) => {
                        &&& action == PotClientAction::Ignore(error)
                        &&& final(self).pot_state@ == old(self).pot_state@
                    },
                },
                PotClientEvent::EngineTerminated => {
                    &&& action == PotClientAction::Exit
                    &&& final(self).pot_state@ == old(self).pot_state@
                },
            },
    {
        match event {
            PotClientEvent::Notification { sender, message } => {
                match self.on_gossip_notification(sender.as_ref(), message.as_slice()) {
                    Ok(()) => PotClientAction::Recorded,
                    Err(error) => PotClientAction::Ignore(error),
                }
            },
            PotClientEvent::EngineTerminated => PotClientAction::Exit,
        }
    }
}

} // verus!
