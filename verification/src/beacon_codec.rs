//! Deterministic encodings and signing roots for beacon-chain objects.
//!
//! The canonical root of a beacon block is the root of the header installed
//! in state while the block is processed — the state root cleared — so a
//! block's identity and the header chained to by its successor agree.

use vstd::prelude::*;
use crate::bytes_util::push_u64_be;
pub use crate::codec::{en_hash, en_u64, en_bits, en_sig, en_agg};
use crate::digest::{hash_of_bytes, spec_hash_of_bytes};
use crate::hash256::Hash256;
use crate::types::{
    Attestation, AttestationData, AttestationView, AttesterSlashing, AttesterSlashingView,
    BeaconBlock, BeaconBlockBody, BeaconBlockBodyView, BeaconBlockHeader, BeaconBlockView, Deposit,
    DepositData, DepositView, IndexedAttestation, IndexedAttestationView, ProposerSlashing,
    Transfer, VoluntaryExit,
};

verus! {

// ---------------------------------------------------------------------------
// Fixed-size pieces
// ---------------------------------------------------------------------------

pub open spec fn en_attestation_data(d: AttestationData) -> Seq<u8> {
    en_hash(d.beacon_block_root) + en_u64(d.source_epoch) + en_hash(d.source_root) + en_u64(
        d.target_epoch,
    ) + en_hash(d.target_root) + en_u64(d.shard) + en_u64(d.slot) + en_hash(d.crosslink_data_root)
}

/// The message root an attestation's aggregate signature covers.
pub open spec fn spec_attestation_data_root(d: AttestationData) -> Hash256 {
    spec_hash_of_bytes(en_attestation_data(d))
}

pub open spec fn en_deposit_message(d: DepositData) -> Seq<u8> {
    en_u64(d.pubkey.id) + en_hash(d.withdrawal_credentials) + en_u64(d.amount)
}

/// The message root a deposit's signature covers.
pub open spec fn spec_deposit_message_root(d: DepositData) -> Hash256 {
    spec_hash_of_bytes(en_deposit_message(d))
}

pub open spec fn en_deposit_data(d: DepositData) -> Seq<u8> {
    en_deposit_message(d) + en_sig(d.signature)
}

/// The leaf a deposit contributes to the deposit tree.
pub open spec fn spec_deposit_data_root(d: DepositData) -> Hash256 {
    spec_hash_of_bytes(en_deposit_data(d))
}

pub open spec fn en_header_signed(h: BeaconBlockHeader) -> Seq<u8> {
    en_u64(h.slot) + en_hash(h.previous_block_root) + en_hash(h.state_root) + en_hash(h.body_root)
}

/// The root a proposer signs for a header; also the header's identity.
pub open spec fn spec_header_signed_root(h: BeaconBlockHeader) -> Hash256 {
    spec_hash_of_bytes(en_header_signed(h))
}

pub open spec fn en_exit_message(e: VoluntaryExit) -> Seq<u8> {
    en_u64(e.epoch) + en_u64(e.validator_index)
}

pub open spec fn spec_exit_message_root(e: VoluntaryExit) -> Hash256 {
    spec_hash_of_bytes(en_exit_message(e))
}

pub open spec fn en_transfer_message(t: Transfer) -> Seq<u8> {
    en_u64(t.sender) + en_u64(t.recipient) + en_u64(t.amount) + en_u64(t.fee) + en_u64(t.slot)
        + en_u64(t.pubkey.id)
}

pub open spec fn spec_transfer_message_root(t: Transfer) -> Hash256 {
    spec_hash_of_bytes(en_transfer_message(t))
}

pub open spec fn en_header_full(h: BeaconBlockHeader) -> Seq<u8> {
    en_header_signed(h) + en_sig(h.signature)
}

pub open spec fn en_proposer_slashing(p: ProposerSlashing) -> Seq<u8> {
    en_u64(p.proposer_index) + en_header_full(p.header_1) + en_header_full(p.header_2)
}

pub open spec fn en_indexed(a: IndexedAttestationView) -> Seq<u8> {
    en_u64_list(a.validator_indices) + en_attestation_data(a.data) + en_agg(a.signature)
}

pub open spec fn en_attester_slashing(a: AttesterSlashingView) -> Seq<u8> {
    en_indexed(a.attestation_1) + en_indexed(a.attestation_2)
}

pub open spec fn en_attestation(a: AttestationView) -> Seq<u8> {
    en_attestation_data(a.data) + en_bits(a.bits) + en_agg(a.signature)
}

pub open spec fn en_deposit(d: DepositView) -> Seq<u8> {
    en_hash_list(d.proof) + en_u64(d.index) + en_deposit_data(d.data)
}

pub open spec fn en_exit(e: VoluntaryExit) -> Seq<u8> {
    en_exit_message(e) + en_sig(e.signature)
}

pub open spec fn en_transfer(t: Transfer) -> Seq<u8> {
    en_transfer_message(t) + en_sig(t.signature)
}

// ---------------------------------------------------------------------------
// Count-prefixed lists
// ---------------------------------------------------------------------------

pub open spec fn en_u64_seq(xs: Seq<u64>) -> Seq<u8>
    decreases xs.len(),
{
    if xs.len() == 0 {
        Seq::empty()
    } else {
        en_u64(xs.first()) + en_u64_seq(xs.drop_first())
    }
}

pub open spec fn en_u64_list(xs: Seq<u64>) -> Seq<u8> {
    en_u64(xs.len() as u64) + en_u64_seq(xs)
}

pub open spec fn en_hash_seq(xs: Seq<Hash256>) -> Seq<u8>
    decreases xs.len(),
{
    if xs.len() == 0 {
        Seq::empty()
    } else {
        en_hash(xs.first()) + en_hash_seq(xs.drop_first())
    }
}

pub open spec fn en_hash_list(xs: Seq<Hash256>) -> Seq<u8> {
    en_u64(xs.len() as u64) + en_hash_seq(xs)
}

pub open spec fn en_ps_seq(xs: Seq<ProposerSlashing>) -> Seq<u8>
    decreases xs.len(),
{
    if xs.len() == 0 {
        Seq::empty()
    } else {
        en_proposer_slashing(xs.first()) + en_ps_seq(xs.drop_first())
    }
}

pub open spec fn en_as_seq(xs: Seq<AttesterSlashingView>) -> Seq<u8>
    decreases xs.len(),
{
    if xs.len() == 0 {
        Seq::empty()
    } else {
        en_attester_slashing(xs.first()) + en_as_seq(xs.drop_first())
    }
}

pub open spec fn en_batt_seq(xs: Seq<AttestationView>) -> Seq<u8>
    decreases xs.len(),
{
    if xs.len() == 0 {
        Seq::empty()
    } else {
        en_attestation(xs.first()) + en_batt_seq(xs.drop_first())
    }
}

pub open spec fn en_dep_seq(xs: Seq<DepositView>) -> Seq<u8>
    decreases xs.len(),
{
    if xs.len() == 0 {
        Seq::empty()
    } else {
        en_deposit(xs.first()) + en_dep_seq(xs.drop_first())
    }
}

pub open spec fn en_exit_seq(xs: Seq<VoluntaryExit>) -> Seq<u8>
    decreases xs.len(),
{
    if xs.len() == 0 {
        Seq::empty()
    } else {
        en_exit(xs.first()) + en_exit_seq(xs.drop_first())
    }
}

pub open spec fn en_transfer_seq(xs: Seq<Transfer>) -> Seq<u8>
    decreases xs.len(),
{
    if xs.len() == 0 {
        Seq::empty()
    } else {
        en_transfer(xs.first()) + en_transfer_seq(xs.drop_first())
    }
}

/// The whole body, every field and list bound.
pub open spec fn en_body(b: BeaconBlockBodyView) -> Seq<u8> {
    en_sig(b.randao_reveal) + en_hash(b.eth1_data.deposit_root) + en_u64(b.eth1_data.deposit_count)
        + en_hash(b.eth1_data.block_hash) + en_u64(b.proposer_slashings.len() as u64) + en_ps_seq(
        b.proposer_slashings,
    ) + en_u64(b.attester_slashings.len() as u64) + en_as_seq(b.attester_slashings) + en_u64(
        b.attestations.len() as u64,
    ) + en_batt_seq(b.attestations) + en_u64(b.deposits.len() as u64) + en_dep_seq(b.deposits)
        + en_u64(b.voluntary_exits.len() as u64) + en_exit_seq(b.voluntary_exits) + en_u64(
        b.transfers.len() as u64,
    ) + en_transfer_seq(b.transfers)
}

pub open spec fn spec_body_root(b: BeaconBlockBodyView) -> Hash256 {
    spec_hash_of_bytes(en_body(b))
}

/// The header installed in state while the block is processed: the state
/// root cleared and the signature emptied.
pub open spec fn spec_temporary_header(b: BeaconBlockView) -> BeaconBlockHeader {
    BeaconBlockHeader {
        slot: b.slot,
        previous_block_root: b.previous_block_root,
        state_root: Hash256::spec_zero(),
        body_root: spec_body_root(b.body),
        signature: crate::types::Signature { msg_root: Hash256::spec_zero(), domain: 0, signer: 0 },
    }
}

/// The identity of a beacon block, and the root its proposer signs.
pub open spec fn spec_block_signed_root(b: BeaconBlockView) -> Hash256 {
    spec_header_signed_root(spec_temporary_header(b))
}

// ---------------------------------------------------------------------------
// Executable encoders
// ---------------------------------------------------------------------------

fn push_hash(out: &mut Vec<u8>, h: &Hash256)
    ensures
        final(out)@ == old(out)@ + en_hash(*h),
{
    h.push_bytes(out);
}

fn push_sig(out: &mut Vec<u8>, s: &crate::types::Signature)
    ensures
        final(out)@ == old(out)@ + en_sig(*s),
{
    push_hash(out, &s.msg_root);
    push_u64_be(out, s.domain);
    push_u64_be(out, s.signer);
    proof {
        assert(out@ =~= old(out)@ + en_sig(*s));
    }
}

fn push_agg(out: &mut Vec<u8>, s: &crate::types::AggregateSignature)
    ensures
        final(out)@ == old(out)@ + en_agg(*s),
{
    push_hash(out, &s.msg_root);
    push_u64_be(out, s.domain);
    proof {
        assert(out@ =~= old(out)@ + en_agg(*s));
    }
}

fn push_attestation_data(out: &mut Vec<u8>, d: &AttestationData)
    ensures
        final(out)@ == old(out)@ + en_attestation_data(*d),
{
    push_hash(out, &d.beacon_block_root);
    push_u64_be(out, d.source_epoch);
    push_hash(out, &d.source_root);
    push_u64_be(out, d.target_epoch);
    push_hash(out, &d.target_root);
    push_u64_be(out, d.shard);
    push_u64_be(out, d.slot);
    push_hash(out, &d.crosslink_data_root);
    proof {
        assert(out@ =~= old(out)@ + en_attestation_data(*d));
    }
}

/// The message root an attestation's aggregate signature covers.
pub fn attestation_data_root(d: &AttestationData) -> (r: Hash256)
    ensures
        r == spec_attestation_data_root(*d),
{
    let mut out: Vec<u8> = Vec::new();
    push_attestation_data(&mut out, d);
    proof {
        assert(out@ =~= en_attestation_data(*d));
    }
    hash_of_bytes(&out)
}

fn push_deposit_message(out: &mut Vec<u8>, d: &DepositData)
    ensures
        final(out)@ == old(out)@ + en_deposit_message(*d),
{
    push_u64_be(out, d.pubkey.id);
    push_hash(out, &d.withdrawal_credentials);
    push_u64_be(out, d.amount);
    proof {
        assert(out@ =~= old(out)@ + en_deposit_message(*d));
    }
}

/// The message root a deposit's signature covers.
pub fn deposit_message_root(d: &DepositData) -> (r: Hash256)
    ensures
        r == spec_deposit_message_root(*d),
{
    let mut out: Vec<u8> = Vec::new();
    push_deposit_message(&mut out, d);
    proof {
        assert(out@ =~= en_deposit_message(*d));
    }
    hash_of_bytes(&out)
}

/// The leaf a deposit contributes to the deposit tree.
pub fn deposit_data_root(d: &DepositData) -> (r: Hash256)
    ensures
        r == spec_deposit_data_root(*d),
{
    let mut out: Vec<u8> = Vec::new();
    push_deposit_message(&mut out, d);
    push_sig(&mut out, &d.signature);
    proof {
        assert(out@ =~= en_deposit_data(*d));
    }
    hash_of_bytes(&out)
}

fn push_header_signed(out: &mut Vec<u8>, h: &BeaconBlockHeader)
    ensures
        final(out)@ == old(out)@ + en_header_signed(*h),
{
    push_u64_be(out, h.slot);
    push_hash(out, &h.previous_block_root);
    push_hash(out, &h.state_root);
    push_hash(out, &h.body_root);
    proof {
        assert(out@ =~= old(out)@ + en_header_signed(*h));
    }
}

/// The root a proposer signs for a header; also the header's identity.
pub fn header_signed_root(h: &BeaconBlockHeader) -> (r: Hash256)
    ensures
        r == spec_header_signed_root(*h),
{
    let mut out: Vec<u8> = Vec::new();
    push_header_signed(&mut out, h);
    proof {
        assert(out@ =~= en_header_signed(*h));
    }
    hash_of_bytes(&out)
}

/// The message root a voluntary exit's signature covers.
pub fn exit_message_root(e: &VoluntaryExit) -> (r: Hash256)
    ensures
        r == spec_exit_message_root(*e),
{
    let mut out: Vec<u8> = Vec::new();
    push_u64_be(&mut out, e.epoch);
    push_u64_be(&mut out, e.validator_index);
    proof {
        assert(out@ =~= en_exit_message(*e));
    }
    hash_of_bytes(&out)
}

/// The message root a transfer's signature covers.
pub fn transfer_message_root(t: &Transfer) -> (r: Hash256)
    ensures
        r == spec_transfer_message_root(*t),
{
    let mut out: Vec<u8> = Vec::new();
    push_u64_be(&mut out, t.sender);
    push_u64_be(&mut out, t.recipient);
    push_u64_be(&mut out, t.amount);
    push_u64_be(&mut out, t.fee);
    push_u64_be(&mut out, t.slot);
    push_u64_be(&mut out, t.pubkey.id);
    proof {
        assert(out@ =~= en_transfer_message(*t));
    }
    hash_of_bytes(&out)
}

fn push_header_full(out: &mut Vec<u8>, h: &BeaconBlockHeader)
    ensures
        final(out)@ == old(out)@ + en_header_full(*h),
{
    push_header_signed(out, h);
    push_sig(out, &h.signature);
    proof {
        assert(out@ =~= old(out)@ + en_header_full(*h));
    }
}

fn push_bits_field(out: &mut Vec<u8>, bits: &crate::types::Bitfield)
    ensures
        final(out)@ == old(out)@ + en_bits(bits@),
{
    let n = bits.len();
    push_u64_be(out, n as u64);
    let ghost mid = out@;
    let ghost payload = Seq::new(
        bits@.len(),
        |i: int|
            if bits@[i] {
                1u8
            } else {
                0u8
            },
    );
    let mut i: usize = 0;
    while i < n
        invariant
            n == bits@.len(),
            i <= n,
            payload == Seq::new(
                bits@.len(),
                |j: int|
                    if bits@[j] {
                        1u8
                    } else {
                        0u8
                    },
            ),
            out@ == mid + payload.take(i as int),
        decreases n - i,
    {
        proof {
            assert(payload.take(i + 1) =~= payload.take(i as int).push(payload[i as int]));
        }
        if bits.get(i) {
            out.push(1);
        } else {
            out.push(0);
        }
        i = i + 1;
    }
    proof {
        assert(payload.take(n as int) =~= payload);
        assert(out@ =~= old(out)@ + en_bits(bits@));
    }
}

proof fn lemma_en_u64_seq_push(xs: Seq<u64>, x: u64)
    ensures
        en_u64_seq(xs.push(x)) == en_u64_seq(xs) + en_u64(x),
    decreases xs.len(),
{
    reveal_with_fuel(en_u64_seq, 3);
    if xs.len() == 0 {
        assert(xs.push(x).first() == x);
        assert(xs.push(x).drop_first() =~= Seq::<u64>::empty());
        assert(en_u64_seq(xs.push(x)) =~= en_u64_seq(xs) + en_u64(x));
    } else {
        assert(xs.push(x).first() == xs.first());
        assert(xs.push(x).drop_first() =~= xs.drop_first().push(x));
        lemma_en_u64_seq_push(xs.drop_first(), x);
        assert(en_u64_seq(xs.push(x)) =~= en_u64_seq(xs) + en_u64(x));
    }
}

fn push_u64_list(out: &mut Vec<u8>, xs: &Vec<u64>)
    ensures
        final(out)@ == old(out)@ + en_u64_list(xs@),
{
    let n = xs.len();
    push_u64_be(out, n as u64);
    let ghost mid = out@;
    let mut i: usize = 0;
    while i < n
        invariant
            n == xs@.len(),
            i <= n,
            out@ == mid + en_u64_seq(xs@.take(i as int)),
        decreases n - i,
    {
        proof {
            lemma_en_u64_seq_push(xs@.take(i as int), xs@[i as int]);
            assert(xs@.take(i + 1) =~= xs@.take(i as int).push(xs@[i as int]));
        }
        push_u64_be(out, xs[i]);
        i = i + 1;
    }
    proof {
        assert(xs@.take(n as int) =~= xs@);
        assert(out@ =~= old(out)@ + en_u64_list(xs@));
    }
}

proof fn lemma_en_hash_seq_push(xs: Seq<Hash256>, x: Hash256)
    ensures
        en_hash_seq(xs.push(x)) == en_hash_seq(xs) + en_hash(x),
    decreases xs.len(),
{
    reveal_with_fuel(en_hash_seq, 3);
    if xs.len() == 0 {
        assert(xs.push(x).first() == x);
        assert(xs.push(x).drop_first() =~= Seq::<Hash256>::empty());
        assert(en_hash_seq(xs.push(x)) =~= en_hash_seq(xs) + en_hash(x));
    } else {
        assert(xs.push(x).first() == xs.first());
        assert(xs.push(x).drop_first() =~= xs.drop_first().push(x));
        lemma_en_hash_seq_push(xs.drop_first(), x);
        assert(en_hash_seq(xs.push(x)) =~= en_hash_seq(xs) + en_hash(x));
    }
}

fn push_hash_list(out: &mut Vec<u8>, xs: &Vec<Hash256>)
    ensures
        final(out)@ == old(out)@ + en_hash_list(xs@),
{
    let n = xs.len();
    push_u64_be(out, n as u64);
    let ghost mid = out@;
    let mut i: usize = 0;
    while i < n
        invariant
            n == xs@.len(),
            i <= n,
            out@ == mid + en_hash_seq(xs@.take(i as int)),
        decreases n - i,
    {
        proof {
            lemma_en_hash_seq_push(xs@.take(i as int), xs@[i as int]);
            assert(xs@.take(i + 1) =~= xs@.take(i as int).push(xs@[i as int]));
        }
        push_hash(out, &xs[i]);
        i = i + 1;
    }
    proof {
        assert(xs@.take(n as int) =~= xs@);
        assert(out@ =~= old(out)@ + en_hash_list(xs@));
    }
}

fn push_proposer_slashing(out: &mut Vec<u8>, p: &ProposerSlashing)
    ensures
        final(out)@ == old(out)@ + en_proposer_slashing(*p),
{
    push_u64_be(out, p.proposer_index);
    push_header_full(out, &p.header_1);
    push_header_full(out, &p.header_2);
    proof {
        assert(out@ =~= old(out)@ + en_proposer_slashing(*p));
    }
}

fn push_indexed(out: &mut Vec<u8>, a: &IndexedAttestation)
    ensures
        final(out)@ == old(out)@ + en_indexed(a@),
{
    push_u64_list(out, &a.validator_indices);
    push_attestation_data(out, &a.data);
    push_agg(out, &a.signature);
    proof {
        assert(out@ =~= old(out)@ + en_indexed(a@));
    }
}

fn push_attestation(out: &mut Vec<u8>, a: &Attestation)
    ensures
        final(out)@ == old(out)@ + en_attestation(a@),
{
    push_attestation_data(out, &a.data);
    push_bits_field(out, &a.aggregation_bitfield);
    push_agg(out, &a.signature);
    proof {
        assert(out@ =~= old(out)@ + en_attestation(a@));
    }
}

fn push_deposit(out: &mut Vec<u8>, d: &Deposit)
    ensures
        final(out)@ == old(out)@ + en_deposit(d@),
{
    push_hash_list(out, &d.proof);
    push_u64_be(out, d.index);
    push_deposit_message(out, &d.data);
    push_sig(out, &d.data.signature);
    proof {
        assert(out@ =~= old(out)@ + en_deposit(d@));
    }
}

fn push_exit(out: &mut Vec<u8>, e: &VoluntaryExit)
    ensures
        final(out)@ == old(out)@ + en_exit(*e),
{
    push_u64_be(out, e.epoch);
    push_u64_be(out, e.validator_index);
    push_sig(out, &e.signature);
    proof {
        assert(out@ =~= old(out)@ + en_exit(*e));
    }
}

fn push_transfer(out: &mut Vec<u8>, t: &Transfer)
    ensures
        final(out)@ == old(out)@ + en_transfer(*t),
{
    push_u64_be(out, t.sender);
    push_u64_be(out, t.recipient);
    push_u64_be(out, t.amount);
    push_u64_be(out, t.fee);
    push_u64_be(out, t.slot);
    push_u64_be(out, t.pubkey.id);
    push_sig(out, &t.signature);
    proof {
        assert(out@ =~= old(out)@ + en_transfer(*t));
    }
}

proof fn lemma_en_ps_seq_push(xs: Seq<ProposerSlashing>, x: ProposerSlashing)
    ensures
        en_ps_seq(xs.push(x)) == en_ps_seq(xs) + en_proposer_slashing(x),
    decreases xs.len(),
{
    reveal_with_fuel(en_ps_seq, 3);
    if xs.len() == 0 {
        assert(xs.push(x).first() == x);
        assert(xs.push(x).drop_first() =~= Seq::<ProposerSlashing>::empty());
        assert(en_ps_seq(xs.push(x)) =~= en_ps_seq(xs) + en_proposer_slashing(x));
    } else {
        assert(xs.push(x).first() == xs.first());
        assert(xs.push(x).drop_first() =~= xs.drop_first().push(x));
        lemma_en_ps_seq_push(xs.drop_first(), x);
        assert(en_ps_seq(xs.push(x)) =~= en_ps_seq(xs) + en_proposer_slashing(x));
    }
}

#[verifier::rlimit(100)]
#[verifier::spinoff_prover]
proof fn lemma_en_as_seq_push(xs: Seq<AttesterSlashingView>, x: AttesterSlashingView)
    ensures
        en_as_seq(xs.push(x)) == en_as_seq(xs) + en_attester_slashing(x),
    decreases xs.len(),
{
    reveal_with_fuel(en_as_seq, 3);
    if xs.len() == 0 {
        assert(xs.push(x).first() == x);
        assert(xs.push(x).drop_first() =~= Seq::<AttesterSlashingView>::empty());
        assert(en_as_seq(xs.push(x)) =~= en_as_seq(xs) + en_attester_slashing(x));
    } else {
        assert(xs.push(x).first() == xs.first());
        assert(xs.push(x).drop_first() =~= xs.drop_first().push(x));
        lemma_en_as_seq_push(xs.drop_first(), x);
        assert(en_as_seq(xs.push(x)) =~= en_as_seq(xs) + en_attester_slashing(x));
    }
}

proof fn lemma_en_batt_seq_push(xs: Seq<AttestationView>, x: AttestationView)
    ensures
        en_batt_seq(xs.push(x)) == en_batt_seq(xs) + en_attestation(x),
    decreases xs.len(),
{
    reveal_with_fuel(en_batt_seq, 3);
    if xs.len() == 0 {
        assert(xs.push(x).first() == x);
        assert(xs.push(x).drop_first() =~= Seq::<AttestationView>::empty());
        assert(en_batt_seq(xs.push(x)) =~= en_batt_seq(xs) + en_attestation(x));
    } else {
        assert(xs.push(x).first() == xs.first());
        assert(xs.push(x).drop_first() =~= xs.drop_first().push(x));
        lemma_en_batt_seq_push(xs.drop_first(), x);
        assert(en_batt_seq(xs.push(x)) =~= en_batt_seq(xs) + en_attestation(x));
    }
}

proof fn lemma_en_dep_seq_push(xs: Seq<DepositView>, x: DepositView)
    ensures
        en_dep_seq(xs.push(x)) == en_dep_seq(xs) + en_deposit(x),
    decreases xs.len(),
{
    reveal_with_fuel(en_dep_seq, 3);
    if xs.len() == 0 {
        assert(xs.push(x).first() == x);
        assert(xs.push(x).drop_first() =~= Seq::<DepositView>::empty());
        assert(en_dep_seq(xs.push(x)) =~= en_dep_seq(xs) + en_deposit(x));
    } else {
        assert(xs.push(x).first() == xs.first());
        assert(xs.push(x).drop_first() =~= xs.drop_first().push(x));
        lemma_en_dep_seq_push(xs.drop_first(), x);
        assert(en_dep_seq(xs.push(x)) =~= en_dep_seq(xs) + en_deposit(x));
    }
}

proof fn lemma_en_exit_seq_push(xs: Seq<VoluntaryExit>, x: VoluntaryExit)
    ensures
        en_exit_seq(xs.push(x)) == en_exit_seq(xs) + en_exit(x),
    decreases xs.len(),
{
    reveal_with_fuel(en_exit_seq, 3);
    if xs.len() == 0 {
        assert(xs.push(x).first() == x);
        assert(xs.push(x).drop_first() =~= Seq::<VoluntaryExit>::empty());
        assert(en_exit_seq(xs.push(x)) =~= en_exit_seq(xs) + en_exit(x));
    } else {
        assert(xs.push(x).first() == xs.first());
        assert(xs.push(x).drop_first() =~= xs.drop_first().push(x));
        lemma_en_exit_seq_push(xs.drop_first(), x);
        assert(en_exit_seq(xs.push(x)) =~= en_exit_seq(xs) + en_exit(x));
    }
}

proof fn lemma_en_transfer_seq_push(xs: Seq<Transfer>, x: Transfer)
    ensures
        en_transfer_seq(xs.push(x)) == en_transfer_seq(xs) + en_transfer(x),
    decreases xs.len(),
{
    reveal_with_fuel(en_transfer_seq, 3);
    if xs.len() == 0 {
        assert(xs.push(x).first() == x);
        assert(xs.push(x).drop_first() =~= Seq::<Transfer>::empty());
        assert(en_transfer_seq(xs.push(x)) =~= en_transfer_seq(xs) + en_transfer(x));
    } else {
        assert(xs.push(x).first() == xs.first());
        assert(xs.push(x).drop_first() =~= xs.drop_first().push(x));
        lemma_en_transfer_seq_push(xs.drop_first(), x);
        assert(en_transfer_seq(xs.push(x)) =~= en_transfer_seq(xs) + en_transfer(x));
    }
}

fn push_ps_list(out: &mut Vec<u8>, xs: &Vec<ProposerSlashing>)
    ensures
        final(out)@ == old(out)@ + en_u64(xs@.len() as u64) + en_ps_seq(xs@),
{
    let n = xs.len();
    push_u64_be(out, n as u64);
    let ghost mid = out@;
    let mut i: usize = 0;
    while i < n
        invariant
            n == xs@.len(),
            i <= n,
            out@ == mid + en_ps_seq(xs@.take(i as int)),
        decreases n - i,
    {
        proof {
            lemma_en_ps_seq_push(xs@.take(i as int), xs@[i as int]);
            assert(xs@.take(i + 1) =~= xs@.take(i as int).push(xs@[i as int]));
        }
        push_proposer_slashing(out, &xs[i]);
        i = i + 1;
    }
    proof {
        assert(xs@.take(n as int) =~= xs@);
    }
}

#[verifier::rlimit(100)]
#[verifier::spinoff_prover]
fn push_as_list(out: &mut Vec<u8>, xs: &Vec<AttesterSlashing>)
    ensures
        final(out)@ == old(out)@ + en_u64(xs@.len() as u64) + en_as_seq(
            Seq::new(xs@.len(), |i: int| xs@[i]@),
        ),
{
    let n = xs.len();
    push_u64_be(out, n as u64);
    let ghost mid = out@;
    let ghost vs = Seq::new(xs@.len(), |i: int| xs@[i]@);
    let mut i: usize = 0;
    while i < n
        invariant
            n == xs@.len(),
            vs == Seq::new(xs@.len(), |k: int| xs@[k]@),
            i <= n,
            out@ == mid + en_as_seq(vs.take(i as int)),
        decreases n - i,
    {
        proof {
            lemma_en_as_seq_push(vs.take(i as int), vs[i as int]);
            assert(vs.take(i + 1) =~= vs.take(i as int).push(vs[i as int]));
        }
        let ghost pre = out@;
        let item = &xs[i];
        push_indexed(out, &item.attestation_1);
        push_indexed(out, &item.attestation_2);
        proof {
            assert(out@ =~= pre + en_attester_slashing(vs[i as int]));
        }
        i = i + 1;
    }
    proof {
        assert(vs.take(n as int) =~= vs);
    }
}

fn push_batt_list(out: &mut Vec<u8>, xs: &Vec<Attestation>)
    ensures
        final(out)@ == old(out)@ + en_u64(xs@.len() as u64) + en_batt_seq(
            Seq::new(xs@.len(), |i: int| xs@[i]@),
        ),
{
    let n = xs.len();
    push_u64_be(out, n as u64);
    let ghost mid = out@;
    let ghost vs = Seq::new(xs@.len(), |i: int| xs@[i]@);
    let mut i: usize = 0;
    while i < n
        invariant
            n == xs@.len(),
            vs == Seq::new(xs@.len(), |k: int| xs@[k]@),
            i <= n,
            out@ == mid + en_batt_seq(vs.take(i as int)),
        decreases n - i,
    {
        proof {
            lemma_en_batt_seq_push(vs.take(i as int), vs[i as int]);
            assert(vs.take(i + 1) =~= vs.take(i as int).push(vs[i as int]));
        }
        push_attestation(out, &xs[i]);
        i = i + 1;
    }
    proof {
        assert(vs.take(n as int) =~= vs);
    }
}

fn push_dep_list(out: &mut Vec<u8>, xs: &Vec<Deposit>)
    ensures
        final(out)@ == old(out)@ + en_u64(xs@.len() as u64) + en_dep_seq(
            Seq::new(xs@.len(), |i: int| xs@[i]@),
        ),
{
    let n = xs.len();
    push_u64_be(out, n as u64);
    let ghost mid = out@;
    let ghost vs = Seq::new(xs@.len(), |i: int| xs@[i]@);
    let mut i: usize = 0;
    while i < n
        invariant
            n == xs@.len(),
            vs == Seq::new(xs@.len(), |k: int| xs@[k]@),
            i <= n,
            out@ == mid + en_dep_seq(vs.take(i as int)),
        decreases n - i,
    {
        proof {
            lemma_en_dep_seq_push(vs.take(i as int), vs[i as int]);
            assert(vs.take(i + 1) =~= vs.take(i as int).push(vs[i as int]));
        }
        push_deposit(out, &xs[i]);
        i = i + 1;
    }
    proof {
        assert(vs.take(n as int) =~= vs);
    }
}

fn push_exit_list(out: &mut Vec<u8>, xs: &Vec<VoluntaryExit>)
    ensures
        final(out)@ == old(out)@ + en_u64(xs@.len() as u64) + en_exit_seq(xs@),
{
    let n = xs.len();
    push_u64_be(out, n as u64);
    let ghost mid = out@;
    let mut i: usize = 0;
    while i < n
        invariant
            n == xs@.len(),
            i <= n,
            out@ == mid + en_exit_seq(xs@.take(i as int)),
        decreases n - i,
    {
        proof {
            lemma_en_exit_seq_push(xs@.take(i as int), xs@[i as int]);
            assert(xs@.take(i + 1) =~= xs@.take(i as int).push(xs@[i as int]));
        }
        push_exit(out, &xs[i]);
        i = i + 1;
    }
    proof {
        assert(xs@.take(n as int) =~= xs@);
    }
}

fn push_transfer_list(out: &mut Vec<u8>, xs: &Vec<Transfer>)
    ensures
        final(out)@ == old(out)@ + en_u64(xs@.len() as u64) + en_transfer_seq(xs@),
{
    let n = xs.len();
    push_u64_be(out, n as u64);
    let ghost mid = out@;
    let mut i: usize = 0;
    while i < n
        invariant
            n == xs@.len(),
            i <= n,
            out@ == mid + en_transfer_seq(xs@.take(i as int)),
        decreases n - i,
    {
        proof {
            lemma_en_transfer_seq_push(xs@.take(i as int), xs@[i as int]);
            assert(xs@.take(i + 1) =~= xs@.take(i as int).push(xs@[i as int]));
        }
        push_transfer(out, &xs[i]);
        i = i + 1;
    }
    proof {
        assert(xs@.take(n as int) =~= xs@);
    }
}

/// Appends the whole body encoding; binds every operation the block
/// carries.
#[verifier::rlimit(100)]
#[verifier::spinoff_prover]
fn push_body(out: &mut Vec<u8>, b: &BeaconBlockBody)
    ensures
        final(out)@ == old(out)@ + en_body(b@),
{
    push_sig(out, &b.randao_reveal);
    push_hash(out, &b.eth1_data.deposit_root);
    push_u64_be(out, b.eth1_data.deposit_count);
    push_hash(out, &b.eth1_data.block_hash);
    push_ps_list(out, &b.proposer_slashings);
    push_as_list(out, &b.attester_slashings);
    push_batt_list(out, &b.attestations);
    push_dep_list(out, &b.deposits);
    push_exit_list(out, &b.voluntary_exits);
    push_transfer_list(out, &b.transfers);
    proof {
        assert(Seq::new(b.attester_slashings@.len(), |i: int| b.attester_slashings@[i]@)
            =~= b@.attester_slashings);
        assert(Seq::new(b.attestations@.len(), |i: int| b.attestations@[i]@)
            =~= b@.attestations);
        assert(Seq::new(b.deposits@.len(), |i: int| b.deposits@[i]@) =~= b@.deposits);
        assert(out@ == old(out)@ + en_body(b@));
    }
}

/// The root of the whole body.
pub fn body_root(b: &BeaconBlockBody) -> (r: Hash256)
    ensures
        r == spec_body_root(b@),
{
    let mut out: Vec<u8> = Vec::new();
    push_body(&mut out, b);
    proof {
        assert(out@ =~= en_body(b@));
    }
    hash_of_bytes(&out)
}

/// The wire encoding of a full beacon block.
pub open spec fn spec_beacon_block_wire(b: BeaconBlockView) -> Seq<u8> {
    en_u64(b.slot) + en_hash(b.previous_block_root) + en_hash(b.state_root) + en_body(b.body)
        + en_sig(b.signature)
}

pub fn encode_beacon_block(b: &BeaconBlock) -> (r: Vec<u8>)
    ensures
        r@ == spec_beacon_block_wire(b@),
{
    let mut out: Vec<u8> = Vec::new();
    push_u64_be(&mut out, b.slot);
    push_hash(&mut out, &b.previous_block_root);
    push_hash(&mut out, &b.state_root);
    push_body(&mut out, &b.body);
    push_sig(&mut out, &b.signature);
    proof {
        assert(out@ =~= spec_beacon_block_wire(b@));
    }
    out
}

impl BeaconBlock {
    /// The header installed in state while this block is processed.
    pub fn temporary_block_header(&self) -> (r: BeaconBlockHeader)
        ensures
            r == spec_temporary_header(self@),
    {
        BeaconBlockHeader {
            slot: self.slot,
            previous_block_root: self.previous_block_root,
            state_root: Hash256::zero(),
            body_root: body_root(&self.body),
            signature: crate::types::Signature::empty_signature(),
        }
    }

    /// The identity of the block: the root of its temporary header, which
    /// is also the root its proposer signs.
    pub fn canonical_root(&self) -> (r: Hash256)
        ensures
            r == spec_block_signed_root(self@),
    {
        let h = self.temporary_block_header();
        header_signed_root(&h)
    }
}

} // verus!
