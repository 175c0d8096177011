//! The protocol state: the proofs that a node has accepted, and the tip among them.

use crate::chain::{is_chain, lemma_chain_push, lemma_chain_slots, proofs_view, ProofChain};
use crate::gossip::PeerId;
use crate::primitives::{bytes_eq, PotProof, ProofView, SlotNumber};
use vstd::prelude::*;

verus! {

/// Why a proof was not accepted.
#[derive(Debug, Clone, Copy, PartialEq, Eq, Structural)]
pub enum PotStateError {
    /// No chain was installed yet: there is no tip to hold a proof against.
    TipMissing,
    /// A proof of this node is not for the slot after the tip.
    UnexpectedSlot,
    /// A proof of this node does not carry the seed derived from the tip.
    InvalidSeed,
    /// A proof of this node does not carry the key derived from the tip.
    InvalidKey,
    /// A proof of a peer is for a slot further ahead of the tip than is allowed.
    TooFarInFuture,
    /// A proof of a peer extends no accepted proof.
    Unlinkable,
    /// A proof of a peer was accepted before.
    Duplicate,
}

/// Some earlier proof of `history` is extended by its proof number `i`.
pub open spec fn has_predecessor(history: Seq<ProofView>, i: int) -> bool {
    exists|j: int| 0 <= j < i && #[trigger] history[j].extended_by(history[i])
}

/// Every proof of `history` but the first extends an earlier one.
pub open spec fn rooted(history: Seq<ProofView>) -> bool {
    forall|i: int| 0 < i < history.len() ==> #[trigger] has_predecessor(history, i)
}

/// Some proof of `history` is extended by `candidate`.
pub open spec fn linkable(history: Seq<ProofView>, candidate: ProofView) -> bool {
    exists|j: int| 0 <= j < history.len() && #[trigger] history[j].extended_by(candidate)
}

/// The protocol state as mathematical values.
pub struct ProtocolStateView {
    /// The accepted proofs, in the order in which they were accepted.
    pub history: Seq<ProofView>,
    /// The accepted proof with the highest slot; among several, the one accepted first.
    pub tip: Option<ProofView>,
    /// How many slots ahead of the tip a proof of a peer may be.
    pub max_future_slots: SlotNumber,
}

impl ProtocolStateView {
    /// There is a tip as soon as there is a proof; the tip is an accepted proof and
    /// none is for a later slot; every proof but the first extends an earlier one;
    /// no proof is held twice.
    pub open spec fn wf(self) -> bool {
        &&& self.tip is None <==> self.history.len() == 0
        &&& self.tip matches Some(tip) ==> {
            &&& self.history.contains(tip)
            &&& forall|i: int|
                0 <= i < self.history.len() ==> (#[trigger] self.history[i]).slot_number
                    <= tip.slot_number
        }
        &&& rooted(self.history)
        &&& self.history.no_duplicates()
    }

    /// What becomes of a proof that this node computed.
    pub open spec fn local_verdict(self, candidate: ProofView) -> Result<(), PotStateError> {
        match self.tip {
            None => Err(PotStateError::TipMissing),
            Some(tip) => if candidate.slot_number != tip.slot_number + 1 {
                Err(PotStateError::UnexpectedSlot)
            } else if candidate.seed != tip.next_seed() {
                Err(PotStateError::InvalidSeed)
            } else if candidate.key != tip.next_key() {
                Err(PotStateError::InvalidKey)
            } else {
                Ok(())
            },
        }
    }

    /// What becomes of a proof that a peer sent.
    pub open spec fn peer_verdict(self, candidate: ProofView) -> Result<(), PotStateError> {
        match self.tip {
            None => Err(PotStateError::TipMissing),
            Some(tip) => if candidate.slot_number > tip.slot_number + self.max_future_slots {
                Err(PotStateError::TooFarInFuture)
            } else if !linkable(self.history, candidate) {
                Err(PotStateError::Unlinkable)
            } else if self.history.contains(candidate) {
                Err(PotStateError::Duplicate)
            } else {
                Ok(())
            },
        }
    }

    /// The state after `candidate` was accepted: it is the last of the history, and
    /// it is the tip if its slot is later than that of the tip before.
    pub open spec fn accept(self, candidate: ProofView) -> ProtocolStateView {
        ProtocolStateView {
            history: self.history.push(candidate),
            tip: match self.tip {
                Some(tip) => if candidate.slot_number > tip.slot_number {
                    Some(candidate)
                } else {
                    Some(tip)
                },
                None => Some(candidate),
            },
            max_future_slots: self.max_future_slots,
        }
    }

    /// The state after `chain` was installed.
    pub open spec fn installed(self, chain: Seq<ProofView>) -> ProtocolStateView {
        ProtocolStateView {
            history: chain,
            tip: Some(chain.last()),
            max_future_slots: self.max_future_slots,
        }
    }
}

/// A chain, installed, makes a well-formed state.
pub proof fn lemma_installed_wf(state: ProtocolStateView, chain: Seq<ProofView>)
    requires
        is_chain(chain),
    ensures
        state.installed(chain).wf(),
{
    let after = state.installed(chain);
    assert forall|i: int| 0 <= i < chain.len() implies (#[trigger] chain[i]).slot_number
        <= chain.last().slot_number by {
        lemma_chain_slots(chain, i);
        lemma_chain_slots(chain, chain.len() - 1);
    }
    assert forall|i: int| 0 < i < chain.len() implies #[trigger] has_predecessor(chain, i) by {
        assert(chain[i - 1].extended_by(chain[i - 1 + 1]));
    }
    assert forall|i: int, j: int| 0 <= i < chain.len() && 0 <= j < chain.len() && i != j implies chain[i]
        != chain[j] by {
        lemma_chain_slots(chain, i);
        lemma_chain_slots(chain, j);
    }
}

/// An accepted proof leaves a well-formed state well formed.
pub proof fn lemma_accept_wf(state: ProtocolStateView, candidate: ProofView)
    requires
        state.wf(),
        state.tip is Some,
        linkable(state.history, candidate),
        !state.history.contains(candidate),
    ensures
        state.accept(candidate).wf(),
{
    let after = state.accept(candidate);
    let last = state.history.len() as int;
    let tip = state.tip->0;
    assert(after.history[last] == candidate);
    assert(after.history.contains(after.tip->0)) by {
        if candidate.slot_number > tip.slot_number {
            assert(after.history[last] == after.tip->0);
        } else {
            let at = choose|i: int| 0 <= i < state.history.len() && state.history[i] == tip;
            assert(after.history[at] == tip);
        }
    }
    assert forall|i: int| 0 < i < after.history.len() implies #[trigger] has_predecessor(
        after.history,
        i,
    ) by {
        if i < last {
            assert(has_predecessor(state.history, i));
            let j = choose|j: int| 0 <= j < i && #[trigger] state.history[j].extended_by(state.history[i]);
            assert(after.history[j].extended_by(after.history[i]));
        } else {
            let j = choose|j: int| 0 <= j < state.history.len() && #[trigger] state.history[j].extended_by(candidate);
            assert(after.history[j].extended_by(after.history[i]));
        }
    }
    assert forall|i: int, j: int| 0 <= i < after.history.len() && 0 <= j < after.history.len() && i != j implies after.history[i]
        != after.history[j] by {
        if i < last && j < last {
            assert(state.history[i] != state.history[j]);
        } else if i < last {
            assert(state.history.contains(state.history[i]));
        } else {
            assert(state.history.contains(state.history[j]));
        }
    }
}

/// The choice of the tip: an accepted proof for a later slot than the tip's is the
/// new tip, and any other accepted proof leaves the tip as it is. So the slot of
/// the tip never falls, and of two proofs for one slot the one accepted first
/// stays the tip.
pub proof fn lemma_tip_moves_forward(state: ProtocolStateView, candidate: ProofView)
    requires
        state.tip is Some,
    ensures
        candidate.slot_number > state.tip->0.slot_number ==> state.accept(candidate).tip == Some(
            candidate,
        ),
        candidate.slot_number <= state.tip->0.slot_number ==> state.accept(candidate).tip
            == state.tip,
        state.accept(candidate).tip is Some,
        state.accept(candidate).tip->0.slot_number >= state.tip->0.slot_number,
{
}

/// Index of an earlier proof of `history` that its proof number `i` extends.
pub open spec fn predecessor(history: Seq<ProofView>, i: int) -> int {
    choose|j: int| 0 <= j < i && #[trigger] history[j].extended_by(history[i])
}

/// The way from the first proof of `history` to its proof number `i`: the lineage of
/// the predecessor of `i`, then proof number `i` itself.
pub open spec fn lineage(history: Seq<ProofView>, i: int) -> Seq<ProofView>
    decreases i,
{
    if i > 0 && has_predecessor(history, i) {
        lineage(history, predecessor(history, i)).push(history[i])
    } else {
        seq![history[i]]
    }
}

/// Every accepted proof ends a chain of accepted proofs that starts at the first
/// proof held: along it each proof is one slot after the proof before it and
/// carries the seed and the key derived from it. The chain is as long as the slots
/// from the first proof to the accepted one are many.
pub proof fn lemma_lineage_is_chain(history: Seq<ProofView>, i: int)
    requires
        rooted(history),
        0 <= i < history.len(),
    ensures
        is_chain(lineage(history, i)),
        lineage(history, i)[0] == history[0],
        lineage(history, i).last() == history[i],
        lineage(history, i).len() == history[i].slot_number - history[0].slot_number + 1,
        forall|k: int|
            0 <= k < lineage(history, i).len() ==> history.contains(#[trigger] lineage(history, i)[k]),
    decreases i,
{
    let way = lineage(history, i);
    if i > 0 {
        assert(has_predecessor(history, i));
        let j = predecessor(history, i);
        lemma_lineage_is_chain(history, j);
        let before = lineage(history, j);
        lemma_chain_push(before, history[i]);
        assert forall|k: int| 0 <= k < way.len() implies history.contains(#[trigger] way[k]) by {
            if k < before.len() {
                assert(way[k] == before[k]);
            } else {
                assert(way[k] == history[i]);
            }
        }
    } else {
        assert(way[0] == history[0]);
    }
    lemma_chain_slots(way, way.len() - 1);
}

/// The accepted proofs and the tip among them.
///
/// The state is plain data: a node that reads and writes it from several places
/// keeps it behind a lock of its own.
#[derive(Debug)]
pub struct PotProtocolState {
    history: Vec<PotProof>,
    tip: usize,
    max_future_slots: SlotNumber,
}

impl View for PotProtocolState {
    type V = ProtocolStateView;

    closed spec fn view(&self) -> ProtocolStateView {
        ProtocolStateView {
            history: proofs_view(self.history@),
            tip: if self.history.len() == 0 {
                None
            } else {
                Some(self.history[self.tip as int]@)
            },
            max_future_slots: self.max_future_slots,
        }
    }
}

impl PotProtocolState {
    /// The tip is one of the proofs held.
    pub closed spec fn tip_in_range(self) -> bool {
        self.history.len() > 0 ==> self.tip < self.history.len()
    }

    /// Holds of every state that code can get hold of.
    #[verifier::type_invariant]
    pub open spec fn inv(self) -> bool {
        &&& self.tip_in_range()
        &&& self@.wf()
    }

    /// Every proof held ends a chain of proofs held that starts at the first proof
    /// held: along it each proof is one slot after the proof before it and carries
    /// the seed and the key derived from it.
    pub proof fn lemma_accepted_chain(&self, i: int)
        requires
            self.inv(),
            0 <= i < self@.history.len(),
        ensures
            is_chain(lineage(self@.history, i)),
            lineage(self@.history, i)[0] == self@.history[0],
            lineage(self@.history, i).last() == self@.history[i],
            lineage(self@.history, i).len() == self@.history[i].slot_number
                - self@.history[0].slot_number + 1,
            forall|k: int|
                0 <= k < lineage(self@.history, i).len() ==> self@.history.contains(
                    #[trigger] lineage(self@.history, i)[k],
                ),
    {
        lemma_lineage_is_chain(self@.history, i);
    }

    /// The state before any chain was installed: no proof, no tip.
    pub fn new(max_future_slots: SlotNumber) -> (state: Self)
        ensures
            state@ == (ProtocolStateView {
                history: Seq::empty(),
                tip: None,
                max_future_slots,
            }),
    {
        let state = PotProtocolState { history: Vec::new(), tip: 0, max_future_slots };
        assert(state@.history =~= Seq::empty());
        state
    }

    /// How many slots ahead of the tip a proof of a peer may be.
    pub fn max_future_slots(&self) -> (slots: SlotNumber)
        ensures
            slots == self@.max_future_slots,
    {
        self.max_future_slots
    }

    /// Number of proofs held.
    pub fn len(&self) -> (len: usize)
        ensures
            len == self@.history.len(),
    {
        self.history.len()
    }

    /// Whether no chain was installed yet.
    pub fn is_empty(&self) -> (empty: bool)
        ensures
            empty == (self@.tip is None),
    {
        self.history.len() == 0
    }

    /// The accepted proof with the highest slot: none before a chain was installed.
    pub fn tip(&self) -> (tip: Option<&PotProof>)
        ensures
            match tip {
                Some(p) => self@.tip == Some(p@),
                None => self@.tip is None,
            },
    {
        proof {
            use_type_invariant(self);
        }
        if self.history.len() == 0 {
            None
        } else {
            Some(&self.history[self.tip])
        }
    }

    /// Drops what was held and installs `chain`, whose last proof becomes the tip.
    pub fn reset(&mut self, chain: ProofChain)
        ensures
            final(self)@ == old(self)@.installed(chain@),
    {
        let proofs = chain.into_proofs();
        proof {
            lemma_installed_wf(old(self)@, proofs_view(proofs@));
        }
        let tip = proofs.len() - 1;
        *self = PotProtocolState { history: proofs, tip, max_future_slots: self.max_future_slots };
    }

    /// Whether `candidate` extends a proof that is held.
    fn extends_known(&self, candidate: &PotProof) -> (found: bool)
        ensures
            found == linkable(self@.history, candidate@),
    {
        let ghost history = self@.history;
        let mut i: usize = self.history.len();
        while i > 0
            invariant
                i <= self.history.len(),
                history == proofs_view(self.history@),
                forall|k: int| i <= k < self.history.len() ==> !(#[trigger] history[k]).extended_by(candidate@),
            decreases i,
        {
            i -= 1;
            if self.history[i].is_extended_by(candidate) {
                assert(history[i as int].extended_by(candidate@));
                return true;
            }
        }
        false
    }

    /// Whether `candidate` is held.
    fn holds(&self, candidate: &PotProof) -> (found: bool)
        ensures
            found == self@.history.contains(candidate@),
    {
        let ghost history = self@.history;
        let mut i: usize = self.history.len();
        while i > 0
            invariant
                i <= self.history.len(),
                history == proofs_view(self.history@),
                forall|k: int| i <= k < self.history.len() ==> history[k] != candidate@,
            decreases i,
        {
            i -= 1;
            if self.history[i].same_as(candidate) {
                assert(history[i as int] == candidate@);
                return true;
            }
        }
        false
    }

    /// Adds `candidate` to the proofs held, as the tip if its slot is later than the tip's.
    fn record(&mut self, candidate: &PotProof)
        requires
            old(self)@.tip is Some,
            linkable(old(self)@.history, candidate@),
            !old(self)@.history.contains(candidate@),
        ensures
            final(self)@ == old(self)@.accept(candidate@),
    {
        proof {
            use_type_invariant(&*self);
            lemma_accept_wf(self@, candidate@);
        }
        let advance = candidate.slot_number() > self.history[self.tip].slot_number();
        let ghost before = self.history@;
        let mut history: Vec<PotProof> = Vec::new();
        core::mem::swap(&mut history, &mut self.history);
        history.push(candidate.clone());
        let tip = if advance {
            history.len() - 1
        } else {
            self.tip
        };
        proof {
            assert(proofs_view(history@) =~= proofs_view(before).push(candidate@));
        }
        *self = PotProtocolState { history, tip, max_future_slots: self.max_future_slots };
    }

    /// Takes a proof that this node computed. It is accepted where it is for the
    /// slot after the tip and carries the seed and the key derived from the tip;
    /// it is then the tip.
    pub fn on_proof(&mut self, candidate: &PotProof) -> (result: Result<(), PotStateError>)
        ensures
            result == old(self)@.local_verdict(candidate@),
            final(self)@ == (if result is Ok {
                old(self)@.accept(candidate@)
            } else {
                old(self)@
            }),
            result is Ok ==> final(self)@.tip == Some(candidate@),
    {
        proof {
            use_type_invariant(&*self);
        }
        if self.history.len() == 0 {
            return Err(PotStateError::TipMissing);
        }
        let tip = &self.history[self.tip];
        if candidate.slot_number() == 0 || tip.slot_number() != candidate.slot_number() - 1 {
            return Err(PotStateError::UnexpectedSlot);
        }
        if !bytes_eq(tip.next_seed().0.as_slice(), candidate.seed().0.as_slice()) {
            return Err(PotStateError::InvalidSeed);
        }
        if !bytes_eq(tip.next_key().0.as_slice(), candidate.key().0.as_slice()) {
            return Err(PotStateError::InvalidKey);
        }
        proof {
            let history = self@.history;
            assert(history[self.tip as int].extended_by(candidate@));
            if history.contains(candidate@) {
                let at = choose|i: int| 0 <= i < history.len() && history[i] == candidate@;
                assert(history[at].slot_number <= self@.tip->0.slot_number);
            }
        }
        self.record(candidate);
        Ok(())
    }

    /// Takes a proof that `sender` gossiped. It is refused where its slot is more
    /// than `max_future_slots` after the tip's, where it extends no proof that is
    /// held, and where it is held already. Else it is accepted: it is the tip if
    /// its slot is later than the tip's, and is kept beside the tip if not.
    pub fn on_proof_from_peer(&mut self, sender: &PeerId, candidate: &PotProof) -> (result: Result<
        (),
        PotStateError,
    >)
        ensures
            result == old(self)@.peer_verdict(candidate@),
            final(self)@ == (if result is Ok {
                old(self)@.accept(candidate@)
            } else {
                old(self)@
            }),
    {
        proof {
            use_type_invariant(&*self);
        }
        if self.history.len() == 0 {
            return Err(PotStateError::TipMissing);
        }
        let tip_slot = self.history[self.tip].slot_number();
        if candidate.slot_number() > tip_slot && candidate.slot_number() - tip_slot
            > self.max_future_slots {
            return Err(PotStateError::TooFarInFuture);
        }
        if !self.extends_known(candidate) {
            return Err(PotStateError::Unlinkable);
        }
        if self.holds(candidate) {
            return Err(PotStateError::Duplicate);
        }
        self.record(candidate);
        Ok(())
    }
}

} // verus!
