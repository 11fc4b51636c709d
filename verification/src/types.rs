//! Beacon-chain data types and their mathematical views.
//!
//! Signatures are modeled deterministically: a signature is valid exactly
//! when it records the message root, signing domain and signer it claims to
//! cover.  The underlying aggregate signature scheme is an external
//! collaborator and outside the scope of this library; the model preserves
//! what the protocol logic depends on — validity is a pure function of the
//! signed message, the domain and the signer.

use vstd::prelude::*;
use crate::chain_spec::{ChainSpec, Domain};
use crate::hash256::Hash256;

verus! {

#[derive(Clone, Copy, PartialEq, Eq, Structural, Debug)]
pub struct PublicKey {
    pub id: u64,
}

/// A single-signer signature over `(msg_root, domain)`.
#[derive(Clone, Copy, PartialEq, Eq, Structural, Debug)]
pub struct Signature {
    pub msg_root: Hash256,
    pub domain: u64,
    pub signer: u64,
}

impl Signature {
    pub open spec fn spec_signed(msg_root: Hash256, domain: u64, pk: PublicKey) -> Signature {
        Signature { msg_root, domain, signer: pk.id }
    }

    pub fn empty_signature() -> (r: Signature)
        ensures
            r == (Signature { msg_root: Hash256::spec_zero(), domain: 0, signer: 0 }),
    {
        Signature { msg_root: Hash256::zero(), domain: 0, signer: 0 }
    }

    pub fn sign(msg_root: Hash256, domain: u64, pk: PublicKey) -> (r: Signature)
        ensures
            r == Signature::spec_signed(msg_root, domain, pk),
    {
        Signature { msg_root, domain, signer: pk.id }
    }

    pub fn verify(&self, msg_root: Hash256, domain: u64, pk: &PublicKey) -> (r: bool)
        ensures
            r == (*self == Signature::spec_signed(msg_root, domain, *pk)),
    {
        self.msg_root.eq_root(&msg_root) && self.domain == domain && self.signer == pk.id
    }
}

/// An aggregate signature over `(msg_root, domain)`; the signer set is
/// carried separately, in an aggregation bitfield or an index list.
#[derive(Clone, Copy, PartialEq, Eq, Structural, Debug)]
pub struct AggregateSignature {
    pub msg_root: Hash256,
    pub domain: u64,
}

impl AggregateSignature {
    pub open spec fn spec_signed(msg_root: Hash256, domain: u64) -> AggregateSignature {
        AggregateSignature { msg_root, domain }
    }

    pub fn empty() -> (r: AggregateSignature)
        ensures
            r == (AggregateSignature { msg_root: Hash256::spec_zero(), domain: 0 }),
    {
        AggregateSignature { msg_root: Hash256::zero(), domain: 0 }
    }

    pub fn sign(msg_root: Hash256, domain: u64) -> (r: AggregateSignature)
        ensures
            r == AggregateSignature::spec_signed(msg_root, domain),
    {
        AggregateSignature { msg_root, domain }
    }

    pub fn verify(&self, msg_root: Hash256, domain: u64) -> (r: bool)
        ensures
            r == (*self == AggregateSignature::spec_signed(msg_root, domain)),
    {
        self.msg_root.eq_root(&msg_root) && self.domain == domain
    }
}

/// The signing domain for `epoch`: the fork version in force at that epoch,
/// combined with the domain tag.
pub open spec fn spec_get_domain(fork: Fork, epoch: u64, domain: Domain) -> u64 {
    let version = if epoch < fork.epoch {
        fork.previous_version
    } else {
        fork.current_version
    };
    (version * 0x100000000 + domain.spec_tag()) as u64
}

pub fn get_domain(fork: &Fork, epoch: u64, domain: Domain) -> (r: u64)
    requires
        fork.wf(),
    ensures
        r == spec_get_domain(*fork, epoch, domain),
{
    let version = if epoch < fork.epoch {
        fork.previous_version
    } else {
        fork.current_version
    };
    version * 0x100000000 + domain.tag()
}

/// Fork data; versions are held as the integer value of the 4-byte fork
/// version field.
#[derive(Clone, Copy, PartialEq, Eq, Structural, Debug)]
pub struct Fork {
    pub previous_version: u64,
    pub current_version: u64,
    pub epoch: u64,
}

impl Fork {
    /// Versions fit in four bytes, so domains fit in a `u64`.
    pub open spec fn wf(self) -> bool {
        self.previous_version < 0x100000000 && self.current_version < 0x100000000
    }

    pub fn genesis() -> (r: Fork)
        ensures
            r.wf(),
            r == (Fork { previous_version: 0, current_version: 0, epoch: 0 }),
    {
        Fork { previous_version: 0, current_version: 0, epoch: 0 }
    }
}

#[derive(Clone, Copy, PartialEq, Eq, Structural, Debug)]
pub struct Checkpoint {
    pub epoch: u64,
    pub root: Hash256,
}

#[derive(Clone, Copy, PartialEq, Eq, Structural, Debug)]
pub struct Eth1Data {
    pub deposit_root: Hash256,
    pub deposit_count: u64,
    pub block_hash: Hash256,
}

#[derive(Clone, Copy, PartialEq, Eq, Structural, Debug)]
pub struct Validator {
    pub pubkey: PublicKey,
    pub withdrawal_credentials: Hash256,
    pub activation_eligibility_epoch: u64,
    pub activation_epoch: u64,
    pub exit_epoch: u64,
    pub withdrawable_epoch: u64,
    pub effective_balance: u64,
    pub slashed: bool,
}

/// What a single attestation asserts: a head vote, a source checkpoint, a
/// target checkpoint, and the crosslinked shard data.
#[derive(Clone, Copy, PartialEq, Eq, Structural, Debug)]
pub struct AttestationData {
    pub beacon_block_root: Hash256,
    pub source_epoch: u64,
    pub source_root: Hash256,
    pub target_epoch: u64,
    pub target_root: Hash256,
    pub shard: u64,
    pub slot: u64,
    pub crosslink_data_root: Hash256,
}

/// One bit per committee member; bit `i` set means member `i` signed.
#[derive(Clone, Debug)]
pub struct Bitfield {
    pub bits: Vec<bool>,
}

impl View for Bitfield {
    type V = Seq<bool>;

    open spec fn view(&self) -> Seq<bool> {
        self.bits@
    }
}

/// The number of set bits in `s`.
pub open spec fn spec_count_set(s: Seq<bool>) -> nat
    decreases s.len(),
{
    if s.len() == 0 {
        0
    } else {
        spec_count_set(s.drop_last()) + if s.last() {
            1nat
        } else {
            0nat
        }
    }
}

/// Two signer sets are disjoint when no bit is set in both.
pub open spec fn spec_disjoint(a: Seq<bool>, b: Seq<bool>) -> bool {
    forall|i: int| 0 <= i < a.len() && i < b.len() ==> !(a[i] && b[i])
}

/// The bitwise union of two equal-length signer sets.
pub open spec fn spec_union(a: Seq<bool>, b: Seq<bool>) -> Seq<bool> {
    Seq::new(a.len(), |i: int| a[i] || (i < b.len() && b[i]))
}

impl Bitfield {
    pub fn new(len: usize) -> (r: Bitfield)
        ensures
            r@.len() == len,
            forall|i: int| 0 <= i < len ==> !r@[i],
    {
        let mut bits: Vec<bool> = Vec::new();
        let mut i: usize = 0;
        while i < len
            invariant
                i <= len,
                bits@.len() == i,
                forall|j: int| 0 <= j < i ==> !bits@[j],
            decreases len - i,
        {
            bits.push(false);
            i = i + 1;
        }
        Bitfield { bits }
    }

    pub fn len(&self) -> (r: usize)
        ensures
            r == self@.len(),
    {
        self.bits.len()
    }

    pub fn get(&self, i: usize) -> (r: bool)
        requires
            i < self@.len(),
        ensures
            r == self@[i as int],
    {
        self.bits[i]
    }

    pub fn set(&mut self, i: usize)
        requires
            i < old(self)@.len(),
        ensures
            final(self)@ == old(self)@.update(i as int, true),
    {
        self.bits.set(i, true);
    }

    pub fn eq_bits(&self, other: &Bitfield) -> (r: bool)
        ensures
            r == (self@ == other@),
    {
        let n = self.bits.len();
        if n != other.bits.len() {
            proof {
                assert(self@.len() != other@.len());
            }
            return false;
        }
        let mut i: usize = 0;
        while i < n
            invariant
                n == self@.len(),
                n == other@.len(),
                i <= n,
                forall|j: int| 0 <= j < i ==> self@[j] == other@[j],
            decreases n - i,
        {
            if self.bits[i] != other.bits[i] {
                return false;
            }
            i = i + 1;
        }
        proof {
            assert(self@ =~= other@);
        }
        true
    }

    pub fn is_disjoint(&self, other: &Bitfield) -> (r: bool)
        ensures
            r == spec_disjoint(self@, other@),
    {
        let n = self.bits.len();
        let m = other.bits.len();
        let bound = if n < m {
            n
        } else {
            m
        };
        let mut i: usize = 0;
        while i < bound
            invariant
                n == self@.len(),
                m == other@.len(),
                bound == if n < m {
                    n
                } else {
                    m
                },
                i <= bound,
                forall|j: int| 0 <= j < i ==> !(self@[j] && other@[j]),
            decreases bound - i,
        {
            if self.bits[i] && other.bits[i] {
                return false;
            }
            i = i + 1;
        }
        true
    }

    /// Sets `self` to the bitwise union, keeping `self`'s length.
    pub fn union_with(&mut self, other: &Bitfield)
        ensures
            final(self)@ == spec_union(old(self)@, other@),
    {
        let n = self.bits.len();
        let m = other.bits.len();
        let mut out: Vec<bool> = Vec::new();
        let mut i: usize = 0;
        while i < n
            invariant
                n == self@.len(),
                m == other@.len(),
                self@ == old(self)@,
                i <= n,
                out@.len() == i,
                forall|j: int| 0 <= j < i ==> out@[j] == (self@[j] || (j < m && other@[j])),
            decreases n - i,
        {
            let a = self.bits[i];
            let b = if i < m {
                other.bits[i]
            } else {
                false
            };
            out.push(a || b);
            i = i + 1;
        }
        self.bits = out;
        proof {
            assert(self@ =~= spec_union(old(self)@, other@));
        }
    }

    /// An element-by-element copy.
    pub fn duplicate(&self) -> (r: Bitfield)
        ensures
            r@ == self@,
    {
        let mut out: Vec<bool> = Vec::new();
        let mut i: usize = 0;
        while i < self.bits.len()
            invariant
                i <= self@.len(),
                out@ == self@.take(i as int),
            decreases self@.len() - i,
        {
            proof {
                assert(self@.take(i + 1) =~= self@.take(i as int).push(self@[i as int]));
            }
            out.push(self.bits[i]);
            i = i + 1;
        }
        proof {
            assert(self@.take(self@.len() as int) =~= self@);
        }
        Bitfield { bits: out }
    }

    pub fn num_set_bits(&self) -> (r: usize)
        ensures
            r == spec_count_set(self@),
    {
        let n = self.bits.len();
        let mut count: usize = 0;
        let mut i: usize = 0;
        while i < n
            invariant
                n == self@.len(),
                i <= n,
                count == spec_count_set(self@.take(i as int)),
                count <= i,
            decreases n - i,
        {
            proof {
                assert(self@.take(i + 1).drop_last() =~= self@.take(i as int));
                assert(self@.take(i + 1).last() == self@[i as int]);
            }
            if self.bits[i] {
                count = count + 1;
            }
            i = i + 1;
        }
        proof {
            assert(self@.take(n as int) =~= self@);
        }
        count
    }
}

/// The union loop only rewrites bits below `other`'s length, so the result
/// keeps `self`'s length.
pub proof fn lemma_union_len(a: Seq<bool>, b: Seq<bool>)
    ensures
        spec_union(a, b).len() == a.len(),
{
}

/// Union of signer sets is commutative on equal-length bitfields.
pub proof fn lemma_union_commutes(a: Seq<bool>, b: Seq<bool>)
    requires
        a.len() == b.len(),
    ensures
        spec_union(a, b) == spec_union(b, a),
{
    assert(spec_union(a, b) =~= spec_union(b, a));
}

#[derive(Clone, Debug)]
pub struct Attestation {
    pub aggregation_bitfield: Bitfield,
    pub data: AttestationData,
    pub signature: AggregateSignature,
}

pub struct AttestationView {
    pub bits: Seq<bool>,
    pub data: AttestationData,
    pub signature: AggregateSignature,
}

impl View for Attestation {
    type V = AttestationView;

    open spec fn view(&self) -> AttestationView {
        AttestationView {
            bits: self.aggregation_bitfield@,
            data: self.data,
            signature: self.signature,
        }
    }
}

#[derive(Clone, Debug)]
pub struct PendingAttestation {
    pub aggregation_bitfield: Bitfield,
    pub data: AttestationData,
    pub inclusion_delay: u64,
    pub proposer_index: u64,
}

pub struct PendingAttestationView {
    pub bits: Seq<bool>,
    pub data: AttestationData,
    pub inclusion_delay: u64,
    pub proposer_index: u64,
}

impl View for PendingAttestation {
    type V = PendingAttestationView;

    open spec fn view(&self) -> PendingAttestationView {
        PendingAttestationView {
            bits: self.aggregation_bitfield@,
            data: self.data,
            inclusion_delay: self.inclusion_delay,
            proposer_index: self.proposer_index,
        }
    }
}

/// A block header: the block with its body replaced by the body root.
#[derive(Clone, Copy, PartialEq, Eq, Structural, Debug)]
pub struct BeaconBlockHeader {
    pub slot: u64,
    pub previous_block_root: Hash256,
    pub state_root: Hash256,
    pub body_root: Hash256,
    pub signature: Signature,
}

/// Two conflicting headers signed by the same proposer at the same slot.
#[derive(Clone, Copy, PartialEq, Eq, Structural, Debug)]
pub struct ProposerSlashing {
    pub proposer_index: u64,
    pub header_1: BeaconBlockHeader,
    pub header_2: BeaconBlockHeader,
}

#[derive(Clone, Debug)]
pub struct IndexedAttestation {
    pub validator_indices: Vec<u64>,
    pub data: AttestationData,
    pub signature: AggregateSignature,
}

pub struct IndexedAttestationView {
    pub validator_indices: Seq<u64>,
    pub data: AttestationData,
    pub signature: AggregateSignature,
}

impl View for IndexedAttestation {
    type V = IndexedAttestationView;

    open spec fn view(&self) -> IndexedAttestationView {
        IndexedAttestationView {
            validator_indices: self.validator_indices@,
            data: self.data,
            signature: self.signature,
        }
    }
}

#[derive(Clone, Debug)]
pub struct AttesterSlashing {
    pub attestation_1: IndexedAttestation,
    pub attestation_2: IndexedAttestation,
}

pub struct AttesterSlashingView {
    pub attestation_1: IndexedAttestationView,
    pub attestation_2: IndexedAttestationView,
}

impl View for AttesterSlashing {
    type V = AttesterSlashingView;

    open spec fn view(&self) -> AttesterSlashingView {
        AttesterSlashingView { attestation_1: self.attestation_1@, attestation_2: self.attestation_2@ }
    }
}

#[derive(Clone, Copy, PartialEq, Eq, Structural, Debug)]
pub struct DepositData {
    pub pubkey: PublicKey,
    pub withdrawal_credentials: Hash256,
    pub amount: u64,
    pub signature: Signature,
}

#[derive(Clone, Debug)]
pub struct Deposit {
    pub proof: Vec<Hash256>,
    pub index: u64,
    pub data: DepositData,
}

pub struct DepositView {
    pub proof: Seq<Hash256>,
    pub index: u64,
    pub data: DepositData,
}

impl View for Deposit {
    type V = DepositView;

    open spec fn view(&self) -> DepositView {
        DepositView { proof: self.proof@, index: self.index, data: self.data }
    }
}

#[derive(Clone, Copy, PartialEq, Eq, Structural, Debug)]
pub struct VoluntaryExit {
    pub epoch: u64,
    pub validator_index: u64,
    pub signature: Signature,
}

#[derive(Clone, Copy, PartialEq, Eq, Structural, Debug)]
pub struct Transfer {
    pub sender: u64,
    pub recipient: u64,
    pub amount: u64,
    pub fee: u64,
    pub slot: u64,
    pub pubkey: PublicKey,
    pub signature: Signature,
}

#[derive(Clone, Debug)]
pub struct BeaconBlockBody {
    pub randao_reveal: Signature,
    pub eth1_data: Eth1Data,
    pub proposer_slashings: Vec<ProposerSlashing>,
    pub attester_slashings: Vec<AttesterSlashing>,
    pub attestations: Vec<Attestation>,
    pub deposits: Vec<Deposit>,
    pub voluntary_exits: Vec<VoluntaryExit>,
    pub transfers: Vec<Transfer>,
}

pub struct BeaconBlockBodyView {
    pub randao_reveal: Signature,
    pub eth1_data: Eth1Data,
    pub proposer_slashings: Seq<ProposerSlashing>,
    pub attester_slashings: Seq<AttesterSlashingView>,
    pub attestations: Seq<AttestationView>,
    pub deposits: Seq<DepositView>,
    pub voluntary_exits: Seq<VoluntaryExit>,
    pub transfers: Seq<Transfer>,
}

impl View for BeaconBlockBody {
    type V = BeaconBlockBodyView;

    open spec fn view(&self) -> BeaconBlockBodyView {
        BeaconBlockBodyView {
            randao_reveal: self.randao_reveal,
            eth1_data: self.eth1_data,
            proposer_slashings: self.proposer_slashings@,
            attester_slashings: Seq::new(
                self.attester_slashings@.len(),
                |i: int| self.attester_slashings@[i]@,
            ),
            attestations: Seq::new(self.attestations@.len(), |i: int| self.attestations@[i]@),
            deposits: Seq::new(self.deposits@.len(), |i: int| self.deposits@[i]@),
            voluntary_exits: self.voluntary_exits@,
            transfers: self.transfers@,
        }
    }
}

#[derive(Clone, Debug)]
pub struct BeaconBlock {
    pub slot: u64,
    pub previous_block_root: Hash256,
    pub state_root: Hash256,
    pub body: BeaconBlockBody,
    pub signature: Signature,
}

pub struct BeaconBlockView {
    pub slot: u64,
    pub previous_block_root: Hash256,
    pub state_root: Hash256,
    pub body: BeaconBlockBodyView,
    pub signature: Signature,
}

impl View for BeaconBlock {
    type V = BeaconBlockView;

    open spec fn view(&self) -> BeaconBlockView {
        BeaconBlockView {
            slot: self.slot,
            previous_block_root: self.previous_block_root,
            state_root: self.state_root,
            body: self.body@,
            signature: self.signature,
        }
    }
}

/// The committee for `(slot, shard)`.  Committees in this model are the
/// whole registry in index order: every validator attests on every
/// assignment, so a bitfield over the committee is a bitfield over the
/// registry.
pub open spec fn spec_committee_size(validator_count: nat) -> nat {
    validator_count
}

/// The proposer rotates round-robin through the registry, starting with
/// validator 0 at the first slot after genesis.
pub open spec fn spec_proposer_index(validator_count: nat, genesis_slot: u64, slot: u64) -> nat
    recommends
        validator_count > 0,
        genesis_slot < slot,
{
    (((slot - genesis_slot - 1) as nat) % validator_count)
}

pub fn proposer_index(validator_count: usize, genesis_slot: u64, slot: u64) -> (r: usize)
    requires
        validator_count > 0,
        genesis_slot < slot,
    ensures
        r == spec_proposer_index(validator_count as nat, genesis_slot, slot),
        r < validator_count,
{
    (((slot - genesis_slot - 1) % (validator_count as u64)) as usize)
}

} // verus!
