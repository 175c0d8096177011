//! Seeds, keys, checkpoints and proofs, and how one proof derives the inputs of the next.

use crate::hashing::{blake2b_256_digest, blake2b_256_hash};
use vstd::prelude::*;

verus! {

/// Number of a slot, the unit of logical time.
pub type SlotNumber = u64;

/// Number of a block of the host chain.
pub type BlockNumber = u32;

/// Hash of a block of the host chain.
pub type BlockHash = [u8; 32];

/// The bytes of a seed, a key or a checkpoint.
pub type PotBytes = [u8; 16];

/// Compares two byte strings.
pub fn bytes_eq(a: &[u8], b: &[u8]) -> (equal: bool)
    ensures
        equal == (a@ == b@),
{
    if a.len() != b.len() {
        return false;
    }
    let mut i: usize = 0;
    while i < a.len()
        invariant
            a.len() == b.len(),
            i <= a.len(),
            forall|k: int| 0 <= k < i ==> a[k] == b[k],
        decreases a.len() - i,
    {
        if a[i] != b[i] {
            return false;
        }
        i += 1;
    }
    assert(a@ =~= b@);
    true
}

/// The first sixteen bytes of a 32-byte hash.
fn leading_pot_bytes(hash: &[u8; 32]) -> (out: PotBytes)
    ensures
        out@ == hash@.subrange(0, 16),
{
    let mut out: PotBytes = [0u8; 16];
    let mut i: usize = 0;
    while i < 16
        invariant
            i <= 16,
            forall|k: int| 0 <= k < i ==> out[k] == hash[k],
        decreases 16 - i,
    {
        out[i] = hash[i];
        i += 1;
    }
    assert(out@ =~= hash@.subrange(0, 16));
    out
}

/// Seed of a proof: the input that the sequential computation starts from.
#[derive(Clone, Copy, Debug, PartialEq, Eq)]
pub struct PotSeed(pub PotBytes);

/// Key of a proof: the key under which the sequential computation runs.
#[derive(Clone, Copy, Debug, PartialEq, Eq)]
pub struct PotKey(pub PotBytes);

/// One intermediate state of the sequential computation.
#[derive(Clone, Copy, Debug, PartialEq, Eq)]
pub struct PotCheckpoint(pub PotBytes);

impl View for PotSeed {
    type V = Seq<u8>;

    open spec fn view(&self) -> Seq<u8> {
        self.0@
    }
}

impl View for PotKey {
    type V = Seq<u8>;

    open spec fn view(&self) -> Seq<u8> {
        self.0@
    }
}

impl View for PotCheckpoint {
    type V = Seq<u8>;

    open spec fn view(&self) -> Seq<u8> {
        self.0@
    }
}

/// The seed that a chain starts from: the leading bytes of the genesis block hash.
pub open spec fn seed_from_block_hash(block_hash: Seq<u8>) -> Seq<u8> {
    block_hash.subrange(0, 16)
}

impl PotSeed {
    /// Derives the seed of the first slot from the hash of the genesis block.
    pub fn from_block_hash(block_hash: BlockHash) -> (seed: Self)
        ensures
            seed@ == seed_from_block_hash(block_hash@),
    {
        PotSeed(leading_pot_bytes(&block_hash))
    }
}

/// What a proof holds, as mathematical values.
pub struct ProofView {
    /// Seed that the computation started from.
    pub seed: Seq<u8>,
    /// Key that the computation ran under.
    pub key: Seq<u8>,
    /// Slot that the proof is for.
    pub slot_number: SlotNumber,
    /// The intermediate states, in the order in which they were reached.
    pub checkpoints: Seq<Seq<u8>>,
    /// Hash of the block whose entropy the proof carries.
    pub injected_block_hash: Seq<u8>,
}

impl ProofView {
    /// The field widths of a proof, and at least one checkpoint but no more than a
    /// 32-bit count can announce.
    pub open spec fn wf(self) -> bool {
        &&& self.seed.len() == 16
        &&& self.key.len() == 16
        &&& self.injected_block_hash.len() == 32
        &&& 1 <= self.checkpoints.len() <= u32::MAX
        &&& forall|i: int| 0 <= i < self.checkpoints.len() ==> (#[trigger] self.checkpoints[i]).len() == 16
    }

    /// The last checkpoint: the result of the sequential computation.
    pub open spec fn output(self) -> Seq<u8> {
        self.checkpoints.last()
    }

    /// The seed of the next slot: the output of this proof.
    pub open spec fn next_seed(self) -> Seq<u8> {
        self.output()
    }

    /// The key of the next slot: the leading bytes of the digest of this proof's seed.
    pub open spec fn next_key(self) -> Seq<u8> {
        blake2b_256_digest(self.seed).subrange(0, 16)
    }

    /// `next` is one slot after `self` and carries the seed and key derived from `self`.
    pub open spec fn extended_by(self, next: ProofView) -> bool {
        &&& next.slot_number == self.slot_number + 1
        &&& next.seed == self.next_seed()
        &&& next.key == self.next_key()
    }
}

/// The checkpoints of a proof as byte strings.
pub open spec fn checkpoints_view(checkpoints: Seq<PotCheckpoint>) -> Seq<Seq<u8>> {
    Seq::new(checkpoints.len(), |i: int| checkpoints[i]@)
}

/// Proof that the sequential computation of one slot was carried out.
#[derive(Debug, PartialEq, Eq)]
pub struct PotProof {
    slot_number: SlotNumber,
    seed: PotSeed,
    key: PotKey,
    checkpoints: Vec<PotCheckpoint>,
    injected_block_hash: BlockHash,
}

impl View for PotProof {
    type V = ProofView;

    closed spec fn view(&self) -> ProofView {
        ProofView {
            seed: self.seed@,
            key: self.key@,
            slot_number: self.slot_number,
            checkpoints: checkpoints_view(self.checkpoints@),
            injected_block_hash: self.injected_block_hash@,
        }
    }
}

impl Clone for PotProof {
    fn clone(&self) -> (copy: Self)
        ensures
            copy@ == self@,
    {
        proof {
            use_type_invariant(self);
        }
        let mut checkpoints: Vec<PotCheckpoint> = Vec::new();
        let mut i: usize = 0;
        while i < self.checkpoints.len()
            invariant
                i <= self.checkpoints.len(),
                checkpoints.len() == i,
                forall|k: int| 0 <= k < i ==> checkpoints[k] == self.checkpoints[k],
            decreases self.checkpoints.len() - i,
        {
            checkpoints.push(self.checkpoints[i]);
            i += 1;
        }
        assert(checkpoints@ =~= self.checkpoints@);
        PotProof {
            slot_number: self.slot_number,
            seed: self.seed,
            key: self.key,
            checkpoints,
            injected_block_hash: self.injected_block_hash,
        }
    }
}

impl PotProof {
    /// Holds of every proof that code can get hold of.
    #[verifier::type_invariant]
    pub open spec fn inv(self) -> bool {
        self@.wf()
    }

    /// Puts a proof together. There is none without a checkpoint, nor with more
    /// checkpoints than a 32-bit count can announce.
    pub fn new(
        slot_number: SlotNumber,
        seed: PotSeed,
        key: PotKey,
        checkpoints: Vec<PotCheckpoint>,
        injected_block_hash: BlockHash,
    ) -> (made: Option<Self>)
        ensures
            made is Some <==> 1 <= checkpoints.len() <= u32::MAX,
            made matches Some(p) ==> p@ == (ProofView {
                seed: seed@,
                key: key@,
                slot_number,
                checkpoints: checkpoints_view(checkpoints@),
                injected_block_hash: injected_block_hash@,
            }),
    {
        if checkpoints.len() == 0 || checkpoints.len() as u64 > 0xffff_ffff {
            return None;
        }
        Some(PotProof { slot_number, seed, key, checkpoints, injected_block_hash })
    }

    /// Slot that the proof was computed for.
    pub fn slot_number(&self) -> (slot_number: SlotNumber)
        ensures
            slot_number == self@.slot_number,
    {
        self.slot_number
    }

    /// Seed that the computation started from.
    pub fn seed(&self) -> (seed: PotSeed)
        ensures
            seed@ == self@.seed,
    {
        self.seed
    }

    /// Key that the computation ran under.
    pub fn key(&self) -> (key: PotKey)
        ensures
            key@ == self@.key,
    {
        self.key
    }

    /// The intermediate states, in the order in which they were reached.
    pub fn checkpoints(&self) -> (checkpoints: &Vec<PotCheckpoint>)
        ensures
            checkpoints_view(checkpoints@) == self@.checkpoints,
    {
        &self.checkpoints
    }

    /// Hash of the block whose entropy the proof carries.
    pub fn injected_block_hash(&self) -> (hash: BlockHash)
        ensures
            hash@ == self@.injected_block_hash,
    {
        self.injected_block_hash
    }

    /// The last checkpoint.
    pub fn output(&self) -> (output: PotCheckpoint)
        ensures
            output@ == self@.output(),
    {
        proof {
            use_type_invariant(self);
        }
        self.checkpoints[self.checkpoints.len() - 1]
    }

    /// Seed of the proof that follows this one.
    pub fn next_seed(&self) -> (seed: PotSeed)
        ensures
            seed@ == self@.next_seed(),
    {
        PotSeed(self.output().0)
    }

    /// Key of the proof that follows this one.
    pub fn next_key(&self) -> (key: PotKey)
        ensures
            key@ == self@.next_key(),
    {
        let digest = blake2b_256_hash(self.seed.0.as_slice());
        PotKey(leading_pot_bytes(&digest))
    }

    /// Whether `next` is one slot after this proof and carries the seed and key
    /// derived from it.
    pub fn is_extended_by(&self, next: &PotProof) -> (extended: bool)
        ensures
            extended == self@.extended_by(next@),
    {
        if next.slot_number == 0 || self.slot_number != next.slot_number - 1 {
            return false;
        }
        if !bytes_eq(self.next_seed().0.as_slice(), next.seed.0.as_slice()) {
            return false;
        }
        bytes_eq(self.next_key().0.as_slice(), next.key.0.as_slice())
    }

    /// Whether the two proofs hold the same values.
    pub fn same_as(&self, other: &PotProof) -> (same: bool)
        ensures
            same == (self@ == other@),
    {
        if self.slot_number != other.slot_number
            || !bytes_eq(self.seed.0.as_slice(), other.seed.0.as_slice())
            || !bytes_eq(self.key.0.as_slice(), other.key.0.as_slice())
            || !bytes_eq(self.injected_block_hash.as_slice(), other.injected_block_hash.as_slice()) {
            return false;
        }
        if self.checkpoints.len() != other.checkpoints.len() {
            assert(self@.checkpoints.len() != other@.checkpoints.len());
            return false;
        }
        let mut i: usize = 0;
        while i < self.checkpoints.len()
            invariant
                self.checkpoints.len() == other.checkpoints.len(),
                i <= self.checkpoints.len(),
                forall|k: int| 0 <= k < i ==> self.checkpoints[k]@ == other.checkpoints[k]@,
            decreases self.checkpoints.len() - i,
        {
            if !bytes_eq(self.checkpoints[i].0.as_slice(), other.checkpoints[i].0.as_slice()) {
                assert(self@.checkpoints[i as int] != other@.checkpoints[i as int]);
                return false;
            }
            i += 1;
        }
        assert(self@.checkpoints =~= other@.checkpoints);
        true
    }
}

} // verus!
