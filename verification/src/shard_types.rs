//! Shard-chain data types: shard blocks anchor to the beacon chain through
//! `beacon_block_root`, and shard attestations vote for a shard block at a
//! target shard slot.

use vstd::prelude::*;
use crate::chain_spec::ChainSpec;
use crate::hash256::Hash256;
use crate::types::{AggregateSignature, Bitfield, Signature};

verus! {

/// What a shard attestation asserts.
#[derive(Clone, Copy, PartialEq, Eq, Structural, Debug)]
pub struct ShardAttestationData {
    pub shard: u64,
    pub target_slot: u64,
    pub target_root: Hash256,
}

#[derive(Clone, Debug)]
pub struct ShardAttestation {
    pub aggregation_bitfield: Bitfield,
    pub data: ShardAttestationData,
    pub signature: AggregateSignature,
}

pub struct ShardAttestationView {
    pub bits: Seq<bool>,
    pub data: ShardAttestationData,
    pub signature: AggregateSignature,
}

impl View for ShardAttestation {
    type V = ShardAttestationView;

    open spec fn view(&self) -> ShardAttestationView {
        ShardAttestationView {
            bits: self.aggregation_bitfield@,
            data: self.data,
            signature: self.signature,
        }
    }
}

impl ShardAttestation {
    pub fn duplicate(&self) -> (r: ShardAttestation)
        ensures
            r@ == self@,
    {
        ShardAttestation {
            aggregation_bitfield: self.aggregation_bitfield.duplicate(),
            data: self.data,
            signature: self.signature,
        }
    }

    /// No committee member signed both `self` and `other`.
    pub fn signers_disjoint_from(&self, other: &ShardAttestation) -> (r: bool)
        ensures
            r == crate::types::spec_disjoint(self@.bits, other@.bits),
    {
        self.aggregation_bitfield.is_disjoint(&other.aggregation_bitfield)
    }

    /// Merges `other`'s signers into `self`; attestations for the same data
    /// carry the same aggregate signature in this model, so the signature is
    /// unchanged.
    pub fn aggregate(&mut self, other: &ShardAttestation)
        ensures
            final(self)@.bits == crate::types::spec_union(old(self)@.bits, other@.bits),
            final(self)@.data == old(self)@.data,
            final(self)@.signature == old(self)@.signature,
    {
        self.aggregation_bitfield.union_with(&other.aggregation_bitfield);
    }

    /// Structural equality on the view.
    pub fn eq_att(&self, other: &ShardAttestation) -> (r: bool)
        ensures
            r == (self@.bits == other@.bits && self@.data == other@.data && self@.signature
                == other@.signature),
    {
        self.aggregation_bitfield.eq_bits(&other.aggregation_bitfield) && self.data
            == other.data && self.signature == other.signature
    }
}

/// The running state of one shard chain, as much of it as per-slot
/// processing and the attestation pool read.
#[derive(Clone, Copy, PartialEq, Eq, Structural, Debug)]
pub struct ShardState {
    pub shard: u64,
    pub slot: u64,
}

#[derive(Clone, Debug)]
pub struct ShardBlock {
    pub slot: u64,
    pub shard: u64,
    pub parent_root: Hash256,
    pub beacon_block_root: Hash256,
    pub state_root: Hash256,
    pub body: Vec<u8>,
    pub attestation: Vec<ShardAttestation>,
    pub signature: Signature,
}

pub struct ShardBlockView {
    pub slot: u64,
    pub shard: u64,
    pub parent_root: Hash256,
    pub beacon_block_root: Hash256,
    pub state_root: Hash256,
    pub body: Seq<u8>,
    pub attestation: Seq<ShardAttestationView>,
    pub signature: Signature,
}

impl View for ShardBlock {
    type V = ShardBlockView;

    open spec fn view(&self) -> ShardBlockView {
        ShardBlockView {
            slot: self.slot,
            shard: self.shard,
            parent_root: self.parent_root,
            beacon_block_root: self.beacon_block_root,
            state_root: self.state_root,
            body: self.body@,
            attestation: Seq::new(self.attestation@.len(), |i: int| self.attestation@[i]@),
            signature: self.signature,
        }
    }
}

#[derive(Clone, Debug)]
pub struct ShardBlockHeader {
    pub slot: u64,
    pub shard: u64,
    pub parent_root: Hash256,
    pub beacon_block_root: Hash256,
    pub state_root: Hash256,
    pub body: Vec<u8>,
    pub attestation: Vec<ShardAttestation>,
    pub signature: Signature,
}

pub struct ShardBlockHeaderView {
    pub slot: u64,
    pub shard: u64,
    pub parent_root: Hash256,
    pub beacon_block_root: Hash256,
    pub state_root: Hash256,
    pub body: Seq<u8>,
    pub attestation: Seq<ShardAttestationView>,
    pub signature: Signature,
}

impl View for ShardBlockHeader {
    type V = ShardBlockHeaderView;

    open spec fn view(&self) -> ShardBlockHeaderView {
        ShardBlockHeaderView {
            slot: self.slot,
            shard: self.shard,
            parent_root: self.parent_root,
            beacon_block_root: self.beacon_block_root,
            state_root: self.state_root,
            body: self.body@,
            attestation: Seq::new(self.attestation@.len(), |i: int| self.attestation@[i]@),
            signature: self.signature,
        }
    }
}

/// Copies a shard attestation list element by element.
pub fn duplicate_attestations(atts: &Vec<ShardAttestation>) -> (r: Vec<ShardAttestation>)
    ensures
        r@.len() == atts@.len(),
        forall|i: int| 0 <= i < r@.len() ==> r@[i]@ == atts@[i]@,
{
    let mut out: Vec<ShardAttestation> = Vec::new();
    let mut i: usize = 0;
    while i < atts.len()
        invariant
            i <= atts@.len(),
            out@.len() == i,
            forall|j: int| 0 <= j < i ==> out@[j]@ == atts@[j]@,
        decreases atts@.len() - i,
    {
        out.push(atts[i].duplicate());
        i = i + 1;
    }
    out
}

impl ShardBlock {
    /// The empty block at the phase 1 fork slot of `shard`.
    pub fn empty(spec: &ChainSpec, shard: u64) -> (r: ShardBlock)
        ensures
            r@.slot == spec.phase_1_fork_slot,
            r@.shard == shard,
            r@.parent_root == spec.zero_hash,
            r@.beacon_block_root == spec.zero_hash,
            r@.state_root == spec.zero_hash,
            r@.body.len() == 0,
            r@.attestation.len() == 0,
            r@.signature == (Signature { msg_root: Hash256::spec_zero(), domain: 0, signer: 0 }),
    {
        let r = ShardBlock {
            shard,
            slot: spec.phase_1_fork_slot,
            beacon_block_root: spec.zero_hash,
            parent_root: spec.zero_hash,
            state_root: spec.zero_hash,
            attestation: Vec::new(),
            body: Vec::new(),
            signature: Signature::empty_signature(),
        };
        proof {
            assert(r@.attestation =~= Seq::<ShardAttestationView>::empty());
        }
        r
    }

    /// The header carrying the same fields as the block.
    pub fn block_header(&self) -> (r: ShardBlockHeader)
        ensures
            r@.slot == self@.slot,
            r@.shard == self@.shard,
            r@.parent_root == self@.parent_root,
            r@.beacon_block_root == self@.beacon_block_root,
            r@.state_root == self@.state_root,
            r@.body == self@.body,
            r@.attestation == self@.attestation,
            r@.signature == self@.signature,
    {
        let r = ShardBlockHeader {
            shard: self.shard,
            slot: self.slot,
            beacon_block_root: self.beacon_block_root,
            parent_root: self.parent_root,
            state_root: self.state_root,
            body: crate::bytes_util::copy_bytes(&self.body),
            attestation: duplicate_attestations(&self.attestation),
            signature: self.signature,
        };
        proof {
            assert(r@.attestation =~= self@.attestation);
        }
        r
    }

    /// The header as installed in state while the block is being processed:
    /// the state root and signature are zeroed.
    pub fn temporary_block_header(&self, spec: &ChainSpec) -> (r: ShardBlockHeader)
        requires
            spec.wf(),
        ensures
            r@.slot == self@.slot,
            r@.shard == self@.shard,
            r@.parent_root == self@.parent_root,
            r@.beacon_block_root == self@.beacon_block_root,
            r@.state_root == Hash256::spec_zero(),
            r@.body == self@.body,
            r@.attestation == self@.attestation,
            r@.signature == (Signature { msg_root: Hash256::spec_zero(), domain: 0, signer: 0 }),
    {
        let mut r = self.block_header();
        r.state_root = spec.zero_hash;
        r.signature = Signature::empty_signature();
        r
    }
}

impl ShardBlockHeader {
    /// The empty header at the phase 1 fork slot of `shard`.
    pub fn empty(spec: &ChainSpec, shard: u64) -> (r: ShardBlockHeader)
        ensures
            r@.slot == spec.phase_1_fork_slot,
            r@.shard == shard,
            r@.parent_root == spec.zero_hash,
            r@.beacon_block_root == spec.zero_hash,
            r@.state_root == spec.zero_hash,
            r@.body.len() == 0,
            r@.attestation.len() == 0,
            r@.signature == (Signature { msg_root: Hash256::spec_zero(), domain: 0, signer: 0 }),
    {
        let r = ShardBlockHeader {
            shard,
            slot: spec.phase_1_fork_slot,
            beacon_block_root: spec.zero_hash,
            parent_root: spec.zero_hash,
            state_root: spec.zero_hash,
            body: Vec::new(),
            attestation: Vec::new(),
            signature: Signature::empty_signature(),
        };
        proof {
            assert(r@.attestation =~= Seq::<ShardAttestationView>::empty());
        }
        r
    }

    /// Consumes the header, yielding the block with the same fields.
    pub fn into_block(self) -> (r: ShardBlock)
        ensures
            r@.slot == self@.slot,
            r@.shard == self@.shard,
            r@.parent_root == self@.parent_root,
            r@.beacon_block_root == self@.beacon_block_root,
            r@.state_root == self@.state_root,
            r@.body == self@.body,
            r@.attestation == self@.attestation,
            r@.signature == self@.signature,
    {
        let ghost v = self@;
        let r = ShardBlock {
            shard: self.shard,
            slot: self.slot,
            beacon_block_root: self.beacon_block_root,
            parent_root: self.parent_root,
            state_root: self.state_root,
            body: self.body,
            attestation: self.attestation,
            signature: self.signature,
        };
        proof {
            assert(r@.attestation =~= v.attestation);
        }
        r
    }

    /// The block with the same fields, leaving the header in place.
    pub fn block(&self) -> (r: ShardBlock)
        ensures
            r@.slot == self@.slot,
            r@.shard == self@.shard,
            r@.parent_root == self@.parent_root,
            r@.beacon_block_root == self@.beacon_block_root,
            r@.state_root == self@.state_root,
            r@.body == self@.body,
            r@.attestation == self@.attestation,
            r@.signature == self@.signature,
    {
        let r = ShardBlock {
            shard: self.shard,
            slot: self.slot,
            beacon_block_root: self.beacon_block_root,
            parent_root: self.parent_root,
            state_root: self.state_root,
            body: crate::bytes_util::copy_bytes(&self.body),
            attestation: duplicate_attestations(&self.attestation),
            signature: self.signature,
        };
        proof {
            assert(r@.attestation =~= self@.attestation);
        }
        r
    }
}

} // verus!
