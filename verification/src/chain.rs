//! Runs of proofs in which each proof extends the one before it.

use crate::primitives::{PotProof, ProofView};
use vstd::prelude::*;

verus! {

/// The proofs of a vector as mathematical values.
pub open spec fn proofs_view(proofs: Seq<PotProof>) -> Seq<ProofView> {
    Seq::new(proofs.len(), |i: int| proofs[i]@)
}

/// At least one proof, and each proof but the first extends the one before it.
pub open spec fn is_chain(proofs: Seq<ProofView>) -> bool {
    &&& proofs.len() >= 1
    &&& forall|i: int| 0 <= i < proofs.len() - 1 ==> (#[trigger] proofs[i]).extended_by(proofs[i + 1])
}

/// Along a chain the slot number grows by one from proof to proof.
pub proof fn lemma_chain_slots(proofs: Seq<ProofView>, i: int)
    requires
        is_chain(proofs),
        0 <= i < proofs.len(),
    ensures
        proofs[i].slot_number == proofs[0].slot_number + i,
    decreases i,
{
    if i > 0 {
        lemma_chain_slots(proofs, i - 1);
        assert(proofs[i - 1].extended_by(proofs[i - 1 + 1]));
    }
}

/// A chain that is extended by a proof that extends its last proof is a chain.
pub proof fn lemma_chain_push(proofs: Seq<ProofView>, next: ProofView)
    requires
        is_chain(proofs),
        proofs.last().extended_by(next),
    ensures
        is_chain(proofs.push(next)),
{
    let longer = proofs.push(next);
    assert forall|i: int| 0 <= i < longer.len() - 1 implies (#[trigger] longer[i]).extended_by(
        longer[i + 1],
    ) by {
        if i < proofs.len() - 1 {
            assert(proofs[i].extended_by(proofs[i + 1]));
        }
    }
}

/// Why a node did not start from the proofs of the host chain.
#[derive(Debug, Clone, Copy, PartialEq, Eq, Structural)]
pub enum ResyncError {
    /// The proofs are none, or one of them does not extend the one before it.
    NotAChain,
}

/// A checked run of proofs: not empty, and each proof extends the one before it.
#[derive(Debug)]
pub struct ProofChain {
    proofs: Vec<PotProof>,
}

impl View for ProofChain {
    type V = Seq<ProofView>;

    closed spec fn view(&self) -> Seq<ProofView> {
        proofs_view(self.proofs@)
    }
}

impl ProofChain {
    /// Holds of every chain that code can get hold of.
    #[verifier::type_invariant]
    pub open spec fn inv(self) -> bool {
        is_chain(self@)
    }

    /// Checks `proofs` and makes a chain of them, in their order. There is none
    /// where `proofs` is empty or a proof does not extend the one before it.
    pub fn new(proofs: Vec<PotProof>) -> (made: Option<Self>)
        ensures
            made is Some <==> is_chain(proofs_view(proofs@)),
            made matches Some(chain) ==> chain@ == proofs_view(proofs@),
    {
        if proofs.len() == 0 {
            return None;
        }
        let ghost listed = proofs_view(proofs@);
        let mut i: usize = 0;
        while i < proofs.len() - 1
            invariant
                proofs.len() >= 1,
                i <= proofs.len() - 1,
                listed == proofs_view(proofs@),
                forall|k: int| 0 <= k < i ==> (#[trigger] listed[k]).extended_by(listed[k + 1]),
            decreases proofs.len() - i,
        {
            if !proofs[i].is_extended_by(&proofs[i + 1]) {
                assert(!listed[i as int].extended_by(listed[i + 1]));
                return None;
            }
            i += 1;
        }
        Some(ProofChain { proofs })
    }

    /// The chain of one proof.
    pub fn single(first: PotProof) -> (chain: Self)
        ensures
            chain@ == seq![first@],
    {
        let mut proofs: Vec<PotProof> = Vec::new();
        proofs.push(first);
        assert(proofs_view(proofs@) =~= seq![first@]);
        ProofChain { proofs }
    }

    /// Number of proofs in the chain: at least one.
    pub fn len(&self) -> (len: usize)
        ensures
            len == self@.len(),
            len >= 1,
    {
        proof {
            use_type_invariant(self);
        }
        self.proofs.len()
    }

    /// The last proof of the chain.
    pub fn last(&self) -> (last: &PotProof)
        ensures
            last@ == self@.last(),
    {
        proof {
            use_type_invariant(self);
        }
        &self.proofs[self.proofs.len() - 1]
    }

    /// Gives the proofs up, in their order.
    pub fn into_proofs(self) -> (proofs: Vec<PotProof>)
        ensures
            proofs_view(proofs@) == self@,
            is_chain(self@),
    {
        proof {
            use_type_invariant(&self);
        }
        self.proofs
    }
}

} // verus!
