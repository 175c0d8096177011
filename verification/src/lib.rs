//! Proof-of-time clock: a chain of sequential-delay proofs, its gossip rules and the
//! decisions of the nodes that produce and follow it.
//!
//! The library decides and keeps state; it does no I/O and starts no thread. A node
//! runs the sequential computation and the transport, and hands what they give to
//! [`ClockMaster`] or [`PotClient`].

pub mod chain;
pub mod clock_master;
pub mod codec;
pub mod gossip;
pub mod hashing;
pub mod node_client;
pub mod primitives;
pub mod state;

pub use crate::chain::{ProofChain, ResyncError};
pub use crate::clock_master::{
    BootstrapParams, ClockMaster, ClockMasterAction, ClockMasterEvent, ProofRequest,
};
pub use crate::gossip::{pot_gossip_peers_set_config, GossipError, PotGossip};
pub use crate::node_client::{PotClient, PotClientAction, PotClientEvent};
pub use crate::primitives::{BlockNumber, SlotNumber};
pub use crate::state::{PotProtocolState, PotStateError, ProtocolStateView};
use vstd::prelude::*;

verus! {

/// The values that tune the clock.
#[derive(Debug, Clone, Copy, PartialEq, Eq)]
pub struct PotConfig {
    /// Frequency of entropy injection from consensus, in blocks.
    pub randomness_update_interval_blocks: BlockNumber,
    /// Starting point for entropy injection from consensus, in blocks.
    pub injection_depth_blocks: BlockNumber,
    /// Number of slots it takes for updated global randomness to take effect.
    pub global_randomness_reveal_lag_slots: SlotNumber,
    /// Number of slots it takes for injected randomness to take effect.
    pub pot_injection_lag_slots: SlotNumber,
    /// A proof of a peer that is more than this many slots after the tip is refused.
    pub max_future_slots: SlotNumber,
    /// Number of checkpoints per proof.
    pub num_checkpoints: u8,
    /// Number of iterations of the sequential computation per checkpoint.
    pub checkpoint_iterations: u32,
}

/// The default configuration: values that give about one proof per second.
pub open spec fn default_config() -> PotConfig {
    PotConfig {
        randomness_update_interval_blocks: 18,
        injection_depth_blocks: 90,
        global_randomness_reveal_lag_slots: 6,
        pot_injection_lag_slots: 6,
        max_future_slots: 10,
        num_checkpoints: 16,
        checkpoint_iterations: 200_000,
    }
}

impl Default for PotConfig {
    fn default() -> (config: Self)
        ensures
            config == default_config(),
    {
        PotConfig {
            randomness_update_interval_blocks: 18,
            injection_depth_blocks: 90,
            global_randomness_reveal_lag_slots: 6,
            pot_injection_lag_slots: 6,
            max_future_slots: 10,
            num_checkpoints: 16,
            checkpoint_iterations: 200_000,
        }
    }
}

/// What a node sets up before it knows its role: the configuration and the
/// protocol state, still empty.
#[derive(Debug)]
pub struct PotComponents {
    /// The values that tune the clock.
    pub config: PotConfig,
    /// The protocol state.
    pub protocol_state: PotProtocolState,
}

impl PotComponents {
    /// The components under the default configuration.
    pub fn new() -> (components: Self)
        ensures
            components.config == default_config(),
            components.protocol_state@ == (ProtocolStateView {
                history: Seq::empty(),
                tip: None,
                max_future_slots: components.config.max_future_slots,
            }),
    {
        let config = PotConfig::default();
        let protocol_state = PotProtocolState::new(config.max_future_slots);
        PotComponents { config, protocol_state }
    }
}

impl Default for PotComponents {
    fn default() -> (components: Self)
        ensures
            components.config == default_config(),
            components.protocol_state@ == (ProtocolStateView {
                history: Seq::empty(),
                tip: None,
                max_future_slots: components.config.max_future_slots,
            }),
    {
        Self::new()
    }
}

/// The role of a node in the clock.
#[derive(Debug, Clone, Copy, PartialEq, Eq, Structural)]
pub enum PotRole {
    /// Produces proofs, and starts the chain.
    ClockMasterBootStrap,
    /// Produces proofs.
    ClockMaster,
    /// Listens for the proofs of the clock masters.
    Client,
}

impl PotRole {
    /// Whether the role produces proofs.
    pub fn is_clock_master(&self) -> (yes: bool)
        ensures
            yes == (*self == PotRole::ClockMasterBootStrap || *self == PotRole::ClockMaster),
    {
        *self == Self::ClockMasterBootStrap || *self == Self::ClockMaster
    }

    /// Whether the role starts the chain.
    pub fn is_clock_master_bootstrap(&self) -> (yes: bool)
        ensures
            yes == (*self == PotRole::ClockMasterBootStrap),
    {
        *self == Self::ClockMasterBootStrap
    }
}

} // verus!
