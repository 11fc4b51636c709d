//! The per-block state transition: the deterministic validator for beacon
//! blocks.  Every step is specified as a pure function of the state view
//! and the block, so the executable transition provably equals its
//! mathematical description — two runs on equal inputs give equal results.

use vstd::prelude::*;
use crate::beacon_codec::{
    attestation_data_root, header_signed_root, spec_attestation_data_root, spec_block_signed_root,
    spec_header_signed_root, spec_temporary_header,
};
use crate::chain_spec::{ChainSpec, Domain};
use crate::digest::{hash_of_bytes, spec_hash_of_bytes};
use crate::hash256::Hash256;
use crate::state::{BeaconState, BeaconStateView};
use crate::types::{
    get_domain, proposer_index, spec_get_domain, spec_proposer_index, BeaconBlock, Eth1Data,
    ProposerSlashing, Signature, Validator,
};

verus! {

/// Why a block was rejected: the failing step, and for list steps the index
/// of the offending object.
#[derive(Clone, Copy, PartialEq, Eq, Structural, Debug)]
pub enum BlockError {
    StateSlotMismatch,
    ParentBlockRootMismatch,
    ProposerSlashed,
    BadSignature,
    BadRandaoSignature,
    MaxProposerSlashingsExceeded,
    InvalidProposerSlashing { index: u64 },
    MaxAttesterSlashingsExceeded,
    InvalidAttesterSlashing { index: u64 },
    MaxAttestationsExceeded,
    InvalidAttestation { index: u64 },
    DepositCountInvalid,
    InvalidDeposit { index: u64 },
    MaxExitsExceeded,
    InvalidExit { index: u64 },
    MaxTransfersExceeded,
    InvalidTransfer { index: u64 },
}

// ---------------------------------------------------------------------------
// Small arithmetic helpers
// ---------------------------------------------------------------------------

pub open spec fn sat_add(a: u64, b: u64) -> u64 {
    if a + b <= u64::MAX {
        (a + b) as u64
    } else {
        u64::MAX
    }
}

pub open spec fn sat_sub(a: u64, b: u64) -> u64 {
    if a >= b {
        (a - b) as u64
    } else {
        0
    }
}

pub fn exec_sat_add(a: u64, b: u64) -> (r: u64)
    ensures
        r == sat_add(a, b),
{
    if u64::MAX - a >= b {
        a + b
    } else {
        u64::MAX
    }
}

pub fn exec_sat_sub(a: u64, b: u64) -> (r: u64)
    ensures
        r == sat_sub(a, b),
{
    if a >= b {
        a - b
    } else {
        0
    }
}

// ---------------------------------------------------------------------------
// Shared state accessors
// ---------------------------------------------------------------------------

/// A well-formed state with a non-empty registry: what slot-level
/// processing works under.
pub open spec fn st_pre(v: BeaconStateView, cs: ChainSpec) -> bool {
    &&& cs.wf()
    &&& v.wf(cs)
    &&& v.validator_registry.len() > 0
}

/// The preconditions every per-block step works under: a well-formed state
/// past genesis with a non-empty registry.
pub open spec fn tx_pre(v: BeaconStateView, cs: ChainSpec) -> bool {
    &&& st_pre(v, cs)
    &&& v.slot > cs.genesis_slot
}

/// The block proposer for the state's current slot.
pub open spec fn spec_proposer_of(v: BeaconStateView, cs: ChainSpec) -> int
    recommends
        tx_pre(v, cs),
{
    spec_proposer_index(v.validator_registry.len(), cs.genesis_slot, v.slot) as int
}

/// Resolves the proposer of the current slot.
pub fn get_beacon_proposer_index(state: &BeaconState, spec: &ChainSpec) -> (r: usize)
    requires
        tx_pre(state@, *spec),
    ensures
        r == spec_proposer_of(state@, *spec),
        r < state@.validator_registry.len(),
{
    proposer_index(state.validator_registry.len(), spec.genesis_slot, state.slot)
}

// ---------------------------------------------------------------------------
// slash_validator / initiate_validator_exit
// ---------------------------------------------------------------------------

/// Slashing: mark the validator, schedule its withdrawal, move the
/// whistleblower reward from the slashed balance to the whistleblower.
pub open spec fn spec_slash_validator(
    v: BeaconStateView,
    slashed: int,
    whistleblower: int,
    cs: ChainSpec,
) -> BeaconStateView
    recommends
        tx_pre(v, cs),
        0 <= slashed < v.validator_registry.len(),
        0 <= whistleblower < v.validator_registry.len(),
{
    let val = v.validator_registry[slashed];
    let reward = (val.effective_balance / cs.whistleblowing_reward_quotient) as u64;
    let new_val = Validator {
        slashed: true,
        withdrawable_epoch: sat_add(v.spec_current_epoch(cs), cs.latest_slashed_exit_length),
        ..val
    };
    let bal1 = v.balances.update(slashed, sat_sub(v.balances[slashed], reward));
    let bal2 = bal1.update(whistleblower, sat_add(bal1[whistleblower], reward));
    BeaconStateView {
        validator_registry: v.validator_registry.update(slashed, new_val),
        balances: bal2,
        ..v
    }
}

/// Slashes `slashed_index`, rewarding `whistleblower_index`.
pub fn slash_validator(
    state: &mut BeaconState,
    slashed_index: usize,
    whistleblower_index: usize,
    spec: &ChainSpec,
)
    requires
        tx_pre(old(state)@, *spec),
        slashed_index < old(state)@.validator_registry.len(),
        whistleblower_index < old(state)@.validator_registry.len(),
    ensures
        final(state)@ == spec_slash_validator(
            old(state)@,
            slashed_index as int,
            whistleblower_index as int,
            *spec,
        ),
        tx_pre(final(state)@, *spec),
{
    let current_epoch = state.current_epoch(spec);
    let val = state.validator_registry[slashed_index];
    let reward = val.effective_balance / spec.whistleblowing_reward_quotient;
    let new_val = Validator {
        slashed: true,
        withdrawable_epoch: exec_sat_add(current_epoch, spec.latest_slashed_exit_length),
        ..val
    };
    state.validator_registry.set(slashed_index, new_val);
    let b = state.balances[slashed_index];
    state.balances.set(slashed_index, exec_sat_sub(b, reward));
    let b2 = state.balances[whistleblower_index];
    state.balances.set(whistleblower_index, exec_sat_add(b2, reward));
}

/// Exit: if the validator has not initiated an exit, schedule one after the
/// activation-exit delay, with withdrawability after the usual cooldown.
pub open spec fn spec_initiate_validator_exit(
    v: BeaconStateView,
    index: int,
    cs: ChainSpec,
) -> BeaconStateView
    recommends
        tx_pre(v, cs),
        0 <= index < v.validator_registry.len(),
{
    let val = v.validator_registry[index];
    if val.exit_epoch != cs.far_future_epoch {
        v
    } else {
        let exit_epoch = sat_add(sat_add(v.spec_current_epoch(cs), 1), cs.activation_exit_delay);
        let new_val = Validator {
            exit_epoch,
            withdrawable_epoch: sat_add(exit_epoch, cs.min_validator_withdrawability_delay),
            ..val
        };
        BeaconStateView { validator_registry: v.validator_registry.update(index, new_val), ..v }
    }
}

pub fn initiate_validator_exit(state: &mut BeaconState, index: usize, spec: &ChainSpec)
    requires
        tx_pre(old(state)@, *spec),
        index < old(state)@.validator_registry.len(),
    ensures
        final(state)@ == spec_initiate_validator_exit(old(state)@, index as int, *spec),
        tx_pre(final(state)@, *spec),
{
    let val = state.validator_registry[index];
    if val.exit_epoch != spec.far_future_epoch {
        return ;
    }
    let current_epoch = state.current_epoch(spec);
    let exit_epoch = exec_sat_add(exec_sat_add(current_epoch, 1), spec.activation_exit_delay);
    let new_val = Validator {
        exit_epoch,
        withdrawable_epoch: exec_sat_add(exit_epoch, spec.min_validator_withdrawability_delay),
        ..val
    };
    state.validator_registry.set(index, new_val);
}

// ---------------------------------------------------------------------------
// Block header
// ---------------------------------------------------------------------------

/// Header processing: the block must sit at the state's slot on top of the
/// state's latest header, its proposer must be unslashed, and — unless
/// signature checking is skipped for replay — carry the proposer's
/// signature over the block's signed root.
pub open spec fn spec_process_block_header(
    v: BeaconStateView,
    b: crate::types::BeaconBlockView,
    verify_sig: bool,
    cs: ChainSpec,
) -> Result<BeaconStateView, BlockError>
    recommends
        tx_pre(v, cs),
{
    if b.slot != v.slot {
        Err(BlockError::StateSlotMismatch)
    } else if b.previous_block_root != spec_header_signed_root(v.latest_block_header) {
        Err(BlockError::ParentBlockRootMismatch)
    } else {
        let p = spec_proposer_of(v, cs);
        if v.validator_registry[p].slashed {
            Err(BlockError::ProposerSlashed)
        } else if verify_sig && b.signature != Signature::spec_signed(
            spec_block_signed_root(b),
            spec_get_domain(v.fork, cs.spec_epoch_of(b.slot), Domain::BeaconProposer),
            v.validator_registry[p].pubkey,
        ) {
            Err(BlockError::BadSignature)
        } else {
            Ok(BeaconStateView { latest_block_header: spec_temporary_header(b), ..v })
        }
    }
}

pub fn process_block_header(
    state: &mut BeaconState,
    block: &BeaconBlock,
    spec: &ChainSpec,
    should_verify_block_signature: bool,
) -> (r: Result<(), BlockError>)
    requires
        tx_pre(old(state)@, *spec),
    ensures
        ({
            let sp = spec_process_block_header(
                old(state)@,
                block@,
                should_verify_block_signature,
                *spec,
            );
            match r {
                Ok(()) => sp matches Ok(v2) && final(state)@ == v2 && tx_pre(final(state)@, *spec),
                Err(e) => sp matches Err(e2) && e == e2 && final(state)@ == old(state)@,
            }
        }),
{
    if block.slot != state.slot {
        return Err(BlockError::StateSlotMismatch);
    }
    let expected = header_signed_root(&state.latest_block_header);
    if !block.previous_block_root.eq_root(&expected) {
        return Err(BlockError::ParentBlockRootMismatch);
    }
    let p = get_beacon_proposer_index(state, spec);
    let proposer = state.validator_registry[p];
    if proposer.slashed {
        return Err(BlockError::ProposerSlashed);
    }
    if should_verify_block_signature {
        let root = block.canonical_root();
        let domain = get_domain(&state.fork, spec.epoch_of(block.slot), Domain::BeaconProposer);
        if !block.signature.verify(root, domain, &proposer.pubkey) {
            return Err(BlockError::BadSignature);
        }
    }
    state.latest_block_header = block.temporary_block_header();
    Ok(())
}

/// Verifies the proposer's signature over the block's signed root.
pub fn verify_block_signature(
    state: &BeaconState,
    block: &BeaconBlock,
    spec: &ChainSpec,
) -> (r: Result<(), BlockError>)
    requires
        tx_pre(state@, *spec),
    ensures
        r is Ok <==> block@.signature == Signature::spec_signed(
            spec_block_signed_root(block@),
            spec_get_domain(state@.fork, spec.spec_epoch_of(block@.slot), Domain::BeaconProposer),
            state@.validator_registry[spec_proposer_of(state@, *spec)].pubkey,
        ),
        r is Err ==> r == Result::<(), BlockError>::Err(BlockError::BadSignature),
{
    let p = get_beacon_proposer_index(state, spec);
    let proposer = state.validator_registry[p];
    let root = block.canonical_root();
    let domain = get_domain(&state.fork, spec.epoch_of(block.slot), Domain::BeaconProposer);
    if block.signature.verify(root, domain, &proposer.pubkey) {
        Ok(())
    } else {
        Err(BlockError::BadSignature)
    }
}

// ---------------------------------------------------------------------------
// RANDAO
// ---------------------------------------------------------------------------

pub open spec fn hash_xor(a: Hash256, b: Hash256) -> Hash256 {
    Hash256 { l0: a.l0 ^ b.l0, l1: a.l1 ^ b.l1, l2: a.l2 ^ b.l2, l3: a.l3 ^ b.l3 }
}

/// The randao reveal signs the current epoch; its digest is folded into the
/// epoch's randao mix by XOR.
pub open spec fn spec_process_randao(
    v: BeaconStateView,
    b: crate::types::BeaconBlockView,
    cs: ChainSpec,
) -> Result<BeaconStateView, BlockError>
    recommends
        tx_pre(v, cs),
{
    let p = spec_proposer_of(v, cs);
    let ce = v.spec_current_epoch(cs);
    let msg = spec_hash_of_bytes(crate::codec::en_u64(ce));
    let domain = spec_get_domain(v.fork, cs.spec_epoch_of(b.slot), Domain::Randao);
    if b.body.randao_reveal != Signature::spec_signed(msg, domain, v.validator_registry[p].pubkey) {
        Err(BlockError::BadRandaoSignature)
    } else {
        let ix = (ce % cs.latest_randao_mixes_length) as int;
        let mixed = hash_xor(
            v.latest_randao_mixes[ix],
            spec_hash_of_bytes(crate::codec::en_sig(b.body.randao_reveal)),
        );
        Ok(BeaconStateView { latest_randao_mixes: v.latest_randao_mixes.update(ix, mixed), ..v })
    }
}

pub fn process_randao(state: &mut BeaconState, block: &BeaconBlock, spec: &ChainSpec) -> (r: Result<
    (),
    BlockError,
>)
    requires
        tx_pre(old(state)@, *spec),
    ensures
        ({
            let sp = spec_process_randao(old(state)@, block@, *spec);
            match r {
                Ok(()) => sp matches Ok(v2) && final(state)@ == v2 && tx_pre(final(state)@, *spec),
                Err(e) => sp matches Err(e2) && e == e2 && final(state)@ == old(state)@,
            }
        }),
{
    let p = get_beacon_proposer_index(state, spec);
    let proposer = state.validator_registry[p];
    let ce = state.current_epoch(spec);
    let mut msg_bytes: Vec<u8> = Vec::new();
    crate::bytes_util::push_u64_be(&mut msg_bytes, ce);
    proof {
        assert(msg_bytes@ =~= crate::codec::en_u64(ce));
    }
    let msg = hash_of_bytes(&msg_bytes);
    let domain = get_domain(&state.fork, spec.epoch_of(block.slot), Domain::Randao);
    if !block.body.randao_reveal.verify(msg, domain, &proposer.pubkey) {
        return Err(BlockError::BadRandaoSignature);
    }
    let mut sig_bytes: Vec<u8> = Vec::new();
    block.body.randao_reveal.msg_root.push_bytes(&mut sig_bytes);
    crate::bytes_util::push_u64_be(&mut sig_bytes, block.body.randao_reveal.domain);
    crate::bytes_util::push_u64_be(&mut sig_bytes, block.body.randao_reveal.signer);
    proof {
        assert(sig_bytes@ =~= crate::codec::en_sig(block@.body.randao_reveal));
    }
    let reveal_digest = hash_of_bytes(&sig_bytes);
    let ix = (ce % spec.latest_randao_mixes_length) as usize;
    let old_mix = state.latest_randao_mixes[ix];
    let mixed = Hash256 {
        l0: old_mix.l0 ^ reveal_digest.l0,
        l1: old_mix.l1 ^ reveal_digest.l1,
        l2: old_mix.l2 ^ reveal_digest.l2,
        l3: old_mix.l3 ^ reveal_digest.l3,
    };
    state.latest_randao_mixes.set(ix, mixed);
    Ok(())
}

// ---------------------------------------------------------------------------
// Eth1 data votes
// ---------------------------------------------------------------------------

/// The number of votes for exactly `e`.
pub open spec fn spec_count_votes(votes: Seq<Eth1Data>, e: Eth1Data) -> nat
    decreases votes.len(),
{
    if votes.len() == 0 {
        0
    } else {
        spec_count_votes(votes.drop_last(), e) + if votes.last() == e {
            1nat
        } else {
            0nat
        }
    }
}

/// The vote is recorded; once more than half the voting period has voted
/// for exactly this value, it is adopted.
pub open spec fn spec_process_eth1_data(
    v: BeaconStateView,
    e: Eth1Data,
    cs: ChainSpec,
) -> BeaconStateView {
    let votes = v.eth1_data_votes.push(e);
    let count = spec_count_votes(votes, e);
    if 2 * count > cs.slots_per_eth1_voting_period {
        BeaconStateView { eth1_data_votes: votes, latest_eth1_data: e, ..v }
    } else {
        BeaconStateView { eth1_data_votes: votes, ..v }
    }
}

#[verifier::loop_isolation(false)]
pub fn process_eth1_data(state: &mut BeaconState, eth1_data: &Eth1Data, spec: &ChainSpec) -> (r:
    Result<(), BlockError>)
    requires
        tx_pre(old(state)@, *spec),
    ensures
        r is Ok,
        final(state)@ == spec_process_eth1_data(old(state)@, *eth1_data, *spec),
        tx_pre(final(state)@, *spec),
{
    state.eth1_data_votes.push(*eth1_data);
    let n = state.eth1_data_votes.len();
    let mut count: u64 = 0;
    let mut i: usize = 0;
    while i < n
        invariant
            n == state@.eth1_data_votes.len(),
            i <= n,
            count <= i,
            count == spec_count_votes(state@.eth1_data_votes.take(i as int), *eth1_data),
        decreases n - i,
    {
        proof {
            assert(state@.eth1_data_votes.take(i + 1).drop_last() =~= state@.eth1_data_votes.take(
                i as int,
            ));
        }
        if state.eth1_data_votes[i] == *eth1_data {
            count = count + 1;
        }
        i = i + 1;
    }
    proof {
        assert(state@.eth1_data_votes.take(n as int) =~= state@.eth1_data_votes);
    }
    let adopt = match count.checked_mul(2) {
        Some(double) => double > spec.slots_per_eth1_voting_period,
        None => true,
    };
    if adopt {
        state.latest_eth1_data = *eth1_data;
    }
    Ok(())
}


// ---------------------------------------------------------------------------
// Generic list machinery
// ---------------------------------------------------------------------------

/// The first index at which `pred` fails, if any.
pub open spec fn first_failing<T>(xs: Seq<T>, pred: spec_fn(T) -> bool) -> Option<int>
    decreases xs.len(),
{
    if xs.len() == 0 {
        None
    } else if !pred(xs.first()) {
        Some(0)
    } else {
        match first_failing(xs.drop_first(), pred) {
            Option::None => None,
            Option::Some(k) => Some(k + 1),
        }
    }
}

pub proof fn lemma_first_failing_at<T>(xs: Seq<T>, pred: spec_fn(T) -> bool, i: int)
    requires
        0 <= i < xs.len(),
        forall|j: int| 0 <= j < i ==> #[trigger] pred(xs[j]),
        !pred(xs[i]),
    ensures
        first_failing(xs, pred) == Some(i),
    decreases i,
{
    if i == 0 {
    } else {
        assert(pred(xs[0]));
        let rest = xs.drop_first();
        assert forall|j: int| 0 <= j < i - 1 implies #[trigger] pred(rest[j]) by {
            assert(rest[j] == xs[j + 1]);
        }
        assert(rest[i - 1] == xs[i]);
        lemma_first_failing_at(rest, pred, i - 1);
    }
}

pub proof fn lemma_first_failing_none<T>(xs: Seq<T>, pred: spec_fn(T) -> bool)
    requires
        forall|j: int| 0 <= j < xs.len() ==> #[trigger] pred(xs[j]),
    ensures
        first_failing(xs, pred) is None,
    decreases xs.len(),
{
    if xs.len() > 0 {
        assert(pred(xs[0]));
        let rest = xs.drop_first();
        assert forall|j: int| 0 <= j < rest.len() implies #[trigger] pred(rest[j]) by {
            assert(rest[j] == xs[j + 1]);
        }
        lemma_first_failing_none(rest, pred);
    }
}

/// The state after applying `f` for each list element, front to back.
pub open spec fn fold_state<T>(
    v: BeaconStateView,
    xs: Seq<T>,
    f: spec_fn(BeaconStateView, T) -> BeaconStateView,
) -> BeaconStateView
    decreases xs.len(),
{
    if xs.len() == 0 {
        v
    } else {
        fold_state(f(v, xs.first()), xs.drop_first(), f)
    }
}

// ---------------------------------------------------------------------------
// Proposer slashings
// ---------------------------------------------------------------------------

/// Two distinct headers for the same slot, both carrying the unslashed
/// proposer's signature.
pub open spec fn spec_valid_proposer_slashing(
    v: BeaconStateView,
    ps: ProposerSlashing,
    cs: ChainSpec,
) -> bool {
    &&& ps.proposer_index < v.validator_registry.len()
    &&& ps.header_1.slot == ps.header_2.slot
    &&& ps.header_1 != ps.header_2
    &&& !v.validator_registry[ps.proposer_index as int].slashed
    &&& ps.header_1.signature == Signature::spec_signed(
        spec_header_signed_root(ps.header_1),
        spec_get_domain(v.fork, cs.spec_epoch_of(ps.header_1.slot), Domain::BeaconProposer),
        v.validator_registry[ps.proposer_index as int].pubkey,
    )
    &&& ps.header_2.signature == Signature::spec_signed(
        spec_header_signed_root(ps.header_2),
        spec_get_domain(v.fork, cs.spec_epoch_of(ps.header_2.slot), Domain::BeaconProposer),
        v.validator_registry[ps.proposer_index as int].pubkey,
    )
}

pub fn verify_proposer_slashing(
    proposer_slashing: &ProposerSlashing,
    state: &BeaconState,
    spec: &ChainSpec,
) -> (r: bool)
    requires
        tx_pre(state@, *spec),
    ensures
        r == spec_valid_proposer_slashing(state@, *proposer_slashing, *spec),
{
    let ps = proposer_slashing;
    let n = state.validator_registry.len();
    if !(ps.proposer_index < n as u64) {
        return false;
    }
    if ps.header_1.slot != ps.header_2.slot {
        return false;
    }
    if ps.header_1 == ps.header_2 {
        return false;
    }
    let proposer = state.validator_registry[ps.proposer_index as usize];
    if proposer.slashed {
        return false;
    }
    let root1 = header_signed_root(&ps.header_1);
    let d1 = get_domain(&state.fork, spec.epoch_of(ps.header_1.slot), Domain::BeaconProposer);
    if !ps.header_1.signature.verify(root1, d1, &proposer.pubkey) {
        return false;
    }
    let root2 = header_signed_root(&ps.header_2);
    let d2 = get_domain(&state.fork, spec.epoch_of(ps.header_2.slot), Domain::BeaconProposer);
    if !ps.header_2.signature.verify(root2, d2, &proposer.pubkey) {
        return false;
    }
    true
}

/// The slashing step applied for one proposer slashing: the named proposer
/// is slashed, the block proposer collecting the whistleblower reward.
pub open spec fn ps_apply(cs: ChainSpec) -> spec_fn(BeaconStateView, ProposerSlashing) -> BeaconStateView {
    |s: BeaconStateView, x: ProposerSlashing|
        spec_slash_validator(s, x.proposer_index as int, spec_proposer_of(s, cs), cs)
}

/// List bound, validity of every entry against the incoming state, then the
/// slashings applied in order.
pub open spec fn spec_process_proposer_slashings(
    v: BeaconStateView,
    xs: Seq<ProposerSlashing>,
    cs: ChainSpec,
) -> Result<BeaconStateView, BlockError>
    recommends
        tx_pre(v, cs),
{
    if xs.len() > cs.max_proposer_slashings {
        Err(BlockError::MaxProposerSlashingsExceeded)
    } else {
        match first_failing(xs, |x: ProposerSlashing| spec_valid_proposer_slashing(v, x, cs)) {
            Option::Some(i) => Err(BlockError::InvalidProposerSlashing { index: i as u64 }),
            Option::None => Ok(fold_state(v, xs, ps_apply(cs))),
        }
    }
}

#[verifier::loop_isolation(false)]
pub fn process_proposer_slashings(
    state: &mut BeaconState,
    proposer_slashings: &Vec<ProposerSlashing>,
    spec: &ChainSpec,
) -> (r: Result<(), BlockError>)
    requires
        tx_pre(old(state)@, *spec),
    ensures
        ({
            let sp = spec_process_proposer_slashings(old(state)@, proposer_slashings@, *spec);
            match r {
                Ok(()) => sp matches Ok(v2) && final(state)@ == v2 && tx_pre(final(state)@, *spec),
                Err(e) => sp matches Err(e2) && e == e2 && final(state)@ == old(state)@,
            }
        }),
{
    let ghost v0 = state@;
    let ghost pred = |x: ProposerSlashing| spec_valid_proposer_slashing(v0, x, *spec);
    let n = proposer_slashings.len();
    if n as u64 > spec.max_proposer_slashings {
        return Err(BlockError::MaxProposerSlashingsExceeded);
    }
    let mut i: usize = 0;
    while i < n
        invariant
            i <= n,
            forall|j: int| 0 <= j < i ==> #[trigger] pred(proposer_slashings@[j]),
        decreases n - i,
    {
        if !verify_proposer_slashing(&proposer_slashings[i], state, spec) {
            proof {
                lemma_first_failing_at(proposer_slashings@, pred, i as int);
            }
            return Err(BlockError::InvalidProposerSlashing { index: i as u64 });
        }
        i = i + 1;
    }
    proof {
        lemma_first_failing_none(proposer_slashings@, pred);
    }
    let ghost f = ps_apply(*spec);
    let mut i: usize = 0;
    proof {
        assert(proposer_slashings@.skip(0) =~= proposer_slashings@);
    }
    while i < n
        invariant
            i <= n,
            tx_pre(state@, *spec),
            state@.validator_registry.len() == v0.validator_registry.len(),
            state@.slot == v0.slot,
            fold_state(state@, proposer_slashings@.skip(i as int), f) == fold_state(
                v0,
                proposer_slashings@,
                f,
            ),
        decreases n - i,
    {
        proof {
            assert(pred(proposer_slashings@[i as int]));
            assert(proposer_slashings@.skip(i as int).first() == proposer_slashings@[i as int]);
            assert(proposer_slashings@.skip(i as int).drop_first() =~= proposer_slashings@.skip(
                i + 1,
            ));
        }
        proof {
            assert(proposer_slashings@[i as int].proposer_index
                < state@.validator_registry.len());
        }
        let ghost cur = state@;
        let reg_len = state.validator_registry.len();
        proof {
            assert(proposer_slashings@[i as int].proposer_index < reg_len as u64);
        }
        let whistleblower = get_beacon_proposer_index(state, spec);
        let target = proposer_slashings[i].proposer_index as usize;
        slash_validator(state, target, whistleblower, spec);
        proof {
            let x = proposer_slashings@[i as int];
            assert(f(cur, x) == spec_slash_validator(
                cur,
                x.proposer_index as int,
                spec_proposer_of(cur, *spec),
                *spec,
            ));
            assert(state@ == f(cur, x));
            assert(fold_state(cur, proposer_slashings@.skip(i as int), f) == fold_state(
                state@,
                proposer_slashings@.skip(i + 1),
                f,
            ));
        }
        i = i + 1;
    }
    proof {
        assert(proposer_slashings@.skip(n as int) =~= Seq::<ProposerSlashing>::empty());
    }
    Ok(())
}

// ---------------------------------------------------------------------------
// Voluntary exits
// ---------------------------------------------------------------------------

/// A signed exit by a validator that has not already initiated one, no
/// earlier than the epoch it names.
pub open spec fn spec_valid_exit(
    v: BeaconStateView,
    e: crate::types::VoluntaryExit,
    cs: ChainSpec,
) -> bool {
    &&& e.validator_index < v.validator_registry.len()
    &&& v.validator_registry[e.validator_index as int].exit_epoch == cs.far_future_epoch
    &&& v.spec_current_epoch(cs) >= e.epoch
    &&& e.signature == Signature::spec_signed(
        crate::beacon_codec::spec_exit_message_root(e),
        spec_get_domain(v.fork, e.epoch, Domain::VoluntaryExit),
        v.validator_registry[e.validator_index as int].pubkey,
    )
}

pub fn verify_exit(
    state: &BeaconState,
    exit: &crate::types::VoluntaryExit,
    spec: &ChainSpec,
) -> (r: bool)
    requires
        tx_pre(state@, *spec),
    ensures
        r == spec_valid_exit(state@, *exit, *spec),
{
    let n = state.validator_registry.len();
    if !(exit.validator_index < n as u64) {
        return false;
    }
    let validator = state.validator_registry[exit.validator_index as usize];
    if validator.exit_epoch != spec.far_future_epoch {
        return false;
    }
    if state.current_epoch(spec) < exit.epoch {
        return false;
    }
    let root = crate::beacon_codec::exit_message_root(exit);
    let domain = get_domain(&state.fork, exit.epoch, Domain::VoluntaryExit);
    exit.signature.verify(root, domain, &validator.pubkey)
}

pub open spec fn exit_apply(cs: ChainSpec) -> spec_fn(
    BeaconStateView,
    crate::types::VoluntaryExit,
) -> BeaconStateView {
    |s: BeaconStateView, x: crate::types::VoluntaryExit|
        spec_initiate_validator_exit(s, x.validator_index as int, cs)
}

pub open spec fn spec_process_exits(
    v: BeaconStateView,
    xs: Seq<crate::types::VoluntaryExit>,
    cs: ChainSpec,
) -> Result<BeaconStateView, BlockError>
    recommends
        tx_pre(v, cs),
{
    if xs.len() > cs.max_voluntary_exits {
        Err(BlockError::MaxExitsExceeded)
    } else {
        match first_failing(xs, |x: crate::types::VoluntaryExit| spec_valid_exit(v, x, cs)) {
            Option::Some(i) => Err(BlockError::InvalidExit { index: i as u64 }),
            Option::None => Ok(fold_state(v, xs, exit_apply(cs))),
        }
    }
}

#[verifier::loop_isolation(false)]
pub fn process_exits(
    state: &mut BeaconState,
    voluntary_exits: &Vec<crate::types::VoluntaryExit>,
    spec: &ChainSpec,
) -> (r: Result<(), BlockError>)
    requires
        tx_pre(old(state)@, *spec),
    ensures
        ({
            let sp = spec_process_exits(old(state)@, voluntary_exits@, *spec);
            match r {
                Ok(()) => sp matches Ok(v2) && final(state)@ == v2 && tx_pre(final(state)@, *spec),
                Err(e) => sp matches Err(e2) && e == e2 && final(state)@ == old(state)@,
            }
        }),
{
    let ghost v0 = state@;
    let ghost pred = |x: crate::types::VoluntaryExit| spec_valid_exit(v0, x, *spec);
    let n = voluntary_exits.len();
    if n as u64 > spec.max_voluntary_exits {
        return Err(BlockError::MaxExitsExceeded);
    }
    let mut i: usize = 0;
    while i < n
        invariant
            i <= n,
            forall|j: int| 0 <= j < i ==> #[trigger] pred(voluntary_exits@[j]),
        decreases n - i,
    {
        if !verify_exit(state, &voluntary_exits[i], spec) {
            proof {
                lemma_first_failing_at(voluntary_exits@, pred, i as int);
            }
            return Err(BlockError::InvalidExit { index: i as u64 });
        }
        i = i + 1;
    }
    proof {
        lemma_first_failing_none(voluntary_exits@, pred);
    }
    let ghost f = exit_apply(*spec);
    let mut i: usize = 0;
    proof {
        assert(voluntary_exits@.skip(0) =~= voluntary_exits@);
    }
    while i < n
        invariant
            i <= n,
            tx_pre(state@, *spec),
            state@.validator_registry.len() == v0.validator_registry.len(),
            state@.slot == v0.slot,
            fold_state(state@, voluntary_exits@.skip(i as int), f) == fold_state(
                v0,
                voluntary_exits@,
                f,
            ),
        decreases n - i,
    {
        proof {
            assert(pred(voluntary_exits@[i as int]));
            assert(voluntary_exits@.skip(i as int).first() == voluntary_exits@[i as int]);
            assert(voluntary_exits@.skip(i as int).drop_first() =~= voluntary_exits@.skip(i + 1));
        }
        proof {
            assert(voluntary_exits@[i as int].validator_index < state@.validator_registry.len());
        }
        let ghost cur = state@;
        let reg_len = state.validator_registry.len();
        proof {
            assert(voluntary_exits@[i as int].validator_index < reg_len as u64);
        }
        let target = voluntary_exits[i].validator_index as usize;
        initiate_validator_exit(state, target, spec);
        proof {
            let x = voluntary_exits@[i as int];
            assert(f(cur, x) == spec_initiate_validator_exit(cur, x.validator_index as int, *spec));
            assert(state@ == f(cur, x));
            assert(fold_state(cur, voluntary_exits@.skip(i as int), f) == fold_state(
                state@,
                voluntary_exits@.skip(i + 1),
                f,
            ));
        }
        i = i + 1;
    }
    proof {
        assert(voluntary_exits@.skip(n as int) =~= Seq::<crate::types::VoluntaryExit>::empty());
    }
    Ok(())
}

// ---------------------------------------------------------------------------
// Transfers
// ---------------------------------------------------------------------------

/// A signed transfer at the state's slot from a funded sender.
pub open spec fn spec_valid_transfer(
    v: BeaconStateView,
    t: crate::types::Transfer,
    cs: ChainSpec,
) -> bool {
    &&& t.sender < v.validator_registry.len()
    &&& t.recipient < v.validator_registry.len()
    &&& t.slot == v.slot
    &&& v.balances[t.sender as int] >= t.amount + t.fee
    &&& t.pubkey == v.validator_registry[t.sender as int].pubkey
    &&& t.signature == Signature::spec_signed(
        crate::beacon_codec::spec_transfer_message_root(t),
        spec_get_domain(v.fork, cs.spec_epoch_of(t.slot), Domain::Transfer),
        t.pubkey,
    )
}

pub fn verify_transfer(
    state: &BeaconState,
    transfer: &crate::types::Transfer,
    spec: &ChainSpec,
) -> (r: bool)
    requires
        tx_pre(state@, *spec),
    ensures
        r == spec_valid_transfer(state@, *transfer, *spec),
{
    let t = transfer;
    let n = state.validator_registry.len();
    if !(t.sender < n as u64) {
        return false;
    }
    if !(t.recipient < n as u64) {
        return false;
    }
    if t.slot != state.slot {
        return false;
    }
    let balance = state.balances[t.sender as usize];
    if !(t.amount <= u64::MAX - t.fee && balance >= t.amount + t.fee) {
        proof {
            assert(!(state@.balances[t.sender as int] >= t.amount + t.fee));
        }
        return false;
    }
    let sender = state.validator_registry[t.sender as usize];
    if t.pubkey != sender.pubkey {
        return false;
    }
    let root = crate::beacon_codec::transfer_message_root(t);
    let domain = get_domain(&state.fork, spec.epoch_of(t.slot), Domain::Transfer);
    t.signature.verify(root, domain, &t.pubkey)
}

/// Moves the amount to the recipient and the fee to the block proposer.
pub open spec fn transfer_apply(cs: ChainSpec) -> spec_fn(
    BeaconStateView,
    crate::types::Transfer,
) -> BeaconStateView {
    |s: BeaconStateView, t: crate::types::Transfer|
        {
            let b1 = s.balances.update(
                t.sender as int,
                sat_sub(sat_sub(s.balances[t.sender as int], t.amount), t.fee),
            );
            let b2 = b1.update(t.recipient as int, sat_add(b1[t.recipient as int], t.amount));
            let p = spec_proposer_of(s, cs);
            let b3 = b2.update(p, sat_add(b2[p], t.fee));
            BeaconStateView { balances: b3, ..s }
        }
}

pub open spec fn spec_process_transfers(
    v: BeaconStateView,
    xs: Seq<crate::types::Transfer>,
    cs: ChainSpec,
) -> Result<BeaconStateView, BlockError>
    recommends
        tx_pre(v, cs),
{
    if xs.len() > cs.max_transfers {
        Err(BlockError::MaxTransfersExceeded)
    } else {
        match first_failing(xs, |x: crate::types::Transfer| spec_valid_transfer(v, x, cs)) {
            Option::Some(i) => Err(BlockError::InvalidTransfer { index: i as u64 }),
            Option::None => Ok(fold_state(v, xs, transfer_apply(cs))),
        }
    }
}

#[verifier::loop_isolation(false)]
pub fn process_transfers(
    state: &mut BeaconState,
    transfers: &Vec<crate::types::Transfer>,
    spec: &ChainSpec,
) -> (r: Result<(), BlockError>)
    requires
        tx_pre(old(state)@, *spec),
    ensures
        ({
            let sp = spec_process_transfers(old(state)@, transfers@, *spec);
            match r {
                Ok(()) => sp matches Ok(v2) && final(state)@ == v2 && tx_pre(final(state)@, *spec),
                Err(e) => sp matches Err(e2) && e == e2 && final(state)@ == old(state)@,
            }
        }),
{
    let ghost v0 = state@;
    let ghost pred = |x: crate::types::Transfer| spec_valid_transfer(v0, x, *spec);
    let n = transfers.len();
    if n as u64 > spec.max_transfers {
        return Err(BlockError::MaxTransfersExceeded);
    }
    let mut i: usize = 0;
    while i < n
        invariant
            i <= n,
            forall|j: int| 0 <= j < i ==> #[trigger] pred(transfers@[j]),
        decreases n - i,
    {
        if !verify_transfer(state, &transfers[i], spec) {
            proof {
                lemma_first_failing_at(transfers@, pred, i as int);
            }
            return Err(BlockError::InvalidTransfer { index: i as u64 });
        }
        i = i + 1;
    }
    proof {
        lemma_first_failing_none(transfers@, pred);
    }
    let ghost f = transfer_apply(*spec);
    let mut i: usize = 0;
    proof {
        assert(transfers@.skip(0) =~= transfers@);
    }
    while i < n
        invariant
            i <= n,
            tx_pre(state@, *spec),
            state@.validator_registry.len() == v0.validator_registry.len(),
            state@.slot == v0.slot,
            fold_state(state@, transfers@.skip(i as int), f) == fold_state(v0, transfers@, f),
        decreases n - i,
    {
        proof {
            assert(pred(transfers@[i as int]));
            assert(transfers@.skip(i as int).first() == transfers@[i as int]);
            assert(transfers@.skip(i as int).drop_first() =~= transfers@.skip(i + 1));
        }
        let reg_len = state.validator_registry.len();
        proof {
            assert(transfers@[i as int].sender < reg_len as u64);
            assert(transfers@[i as int].recipient < reg_len as u64);
        }
        let t = transfers[i];
        let sender = t.sender as usize;
        let recipient = t.recipient as usize;
        let b = state.balances[sender];
        state.balances.set(sender, exec_sat_sub(exec_sat_sub(b, t.amount), t.fee));
        let b2 = state.balances[recipient];
        state.balances.set(recipient, exec_sat_add(b2, t.amount));
        let p = get_beacon_proposer_index(state, spec);
        let b3 = state.balances[p];
        state.balances.set(p, exec_sat_add(b3, t.fee));
        i = i + 1;
    }
    proof {
        assert(transfers@.skip(n as int) =~= Seq::<crate::types::Transfer>::empty());
    }
    Ok(())
}


// ---------------------------------------------------------------------------
// Attestations
// ---------------------------------------------------------------------------

/// A timely attestation for the right target epoch, sourcing the justified
/// checkpoint its target epoch demands, with a committee-sized signer set
/// and the committee's aggregate signature.
pub open spec fn spec_valid_attestation(
    v: BeaconStateView,
    a: crate::types::AttestationView,
    cs: ChainSpec,
) -> bool {
    &&& a.data.slot + cs.min_attestation_inclusion_delay <= v.slot
    &&& v.slot <= a.data.slot + cs.slots_per_epoch
    &&& a.data.target_epoch == cs.spec_epoch_of(a.data.slot)
    &&& if a.data.target_epoch == v.spec_current_epoch(cs) {
        a.data.source_epoch == v.current_justified_epoch && a.data.source_root
            == v.current_justified_root
    } else {
        a.data.target_epoch == v.spec_previous_epoch(cs) && a.data.source_epoch
            == v.previous_justified_epoch && a.data.source_root == v.previous_justified_root
    }
    &&& a.bits.len() == v.validator_registry.len()
    &&& a.signature == crate::types::AggregateSignature::spec_signed(
        spec_attestation_data_root(a.data),
        spec_get_domain(v.fork, a.data.target_epoch, Domain::Attestation),
    )
}

pub fn validate_attestation(
    state: &BeaconState,
    attestation: &crate::types::Attestation,
    spec: &ChainSpec,
) -> (r: bool)
    requires
        tx_pre(state@, *spec),
    ensures
        r == spec_valid_attestation(state@, attestation@, *spec),
{
    let a = attestation;
    if !(spec.min_attestation_inclusion_delay <= state.slot && a.data.slot <= state.slot
        - spec.min_attestation_inclusion_delay) {
        return false;
    }
    if !(state.slot - a.data.slot <= spec.slots_per_epoch) {
        return false;
    }
    if a.data.target_epoch != spec.epoch_of(a.data.slot) {
        return false;
    }
    let ce = state.current_epoch(spec);
    if a.data.target_epoch == ce {
        if !(a.data.source_epoch == state.current_justified_epoch && a.data.source_root.eq_root(
            &state.current_justified_root,
        )) {
            return false;
        }
    } else {
        let pe = state.previous_epoch(spec);
        if !(a.data.target_epoch == pe && a.data.source_epoch == state.previous_justified_epoch
            && a.data.source_root.eq_root(&state.previous_justified_root)) {
            return false;
        }
    }
    if a.aggregation_bitfield.len() != state.validator_registry.len() {
        return false;
    }
    let root = attestation_data_root(&a.data);
    let domain = get_domain(&state.fork, a.data.target_epoch, Domain::Attestation);
    a.signature.verify(root, domain)
}

/// Appends the pending attestation to the buffer its target epoch selects.
pub open spec fn att_apply(cs: ChainSpec) -> spec_fn(
    BeaconStateView,
    crate::types::AttestationView,
) -> BeaconStateView {
    |s: BeaconStateView, a: crate::types::AttestationView|
        {
            let pa = crate::types::PendingAttestationView {
                bits: a.bits,
                data: a.data,
                inclusion_delay: sat_sub(s.slot, a.data.slot),
                proposer_index: spec_proposer_of(s, cs) as u64,
            };
            if a.data.target_epoch == s.spec_current_epoch(cs) {
                BeaconStateView {
                    current_epoch_attestations: s.current_epoch_attestations.push(pa),
                    ..s
                }
            } else {
                BeaconStateView {
                    previous_epoch_attestations: s.previous_epoch_attestations.push(pa),
                    ..s
                }
            }
        }
}

pub open spec fn spec_process_attestations(
    v: BeaconStateView,
    xs: Seq<crate::types::AttestationView>,
    cs: ChainSpec,
) -> Result<BeaconStateView, BlockError>
    recommends
        tx_pre(v, cs),
{
    if xs.len() > cs.max_attestations {
        Err(BlockError::MaxAttestationsExceeded)
    } else {
        match first_failing(
            xs,
            |x: crate::types::AttestationView| spec_valid_attestation(v, x, cs),
        ) {
            Option::Some(i) => Err(BlockError::InvalidAttestation { index: i as u64 }),
            Option::None => Ok(fold_state(v, xs, att_apply(cs))),
        }
    }
}

#[verifier::loop_isolation(false)]
pub fn process_attestations(
    state: &mut BeaconState,
    attestations: &Vec<crate::types::Attestation>,
    spec: &ChainSpec,
) -> (r: Result<(), BlockError>)
    requires
        tx_pre(old(state)@, *spec),
    ensures
        ({
            let views = Seq::new(attestations@.len(), |i: int| attestations@[i]@);
            let sp = spec_process_attestations(old(state)@, views, *spec);
            match r {
                Ok(()) => sp matches Ok(v2) && final(state)@ == v2 && tx_pre(final(state)@, *spec),
                Err(e) => sp matches Err(e2) && e == e2 && final(state)@ == old(state)@,
            }
        }),
{
    let ghost v0 = state@;
    let ghost views = Seq::new(attestations@.len(), |i: int| attestations@[i]@);
    let ghost pred = |x: crate::types::AttestationView| spec_valid_attestation(v0, x, *spec);
    let n = attestations.len();
    if n as u64 > spec.max_attestations {
        return Err(BlockError::MaxAttestationsExceeded);
    }
    let mut i: usize = 0;
    while i < n
        invariant
            i <= n,
            forall|j: int| 0 <= j < i ==> #[trigger] pred(views[j]),
        decreases n - i,
    {
        if !validate_attestation(state, &attestations[i], spec) {
            proof {
                lemma_first_failing_at(views, pred, i as int);
            }
            return Err(BlockError::InvalidAttestation { index: i as u64 });
        }
        i = i + 1;
    }
    proof {
        lemma_first_failing_none(views, pred);
    }
    let ghost f = att_apply(*spec);
    let mut i: usize = 0;
    proof {
        assert(views.skip(0) =~= views);
    }
    while i < n
        invariant
            i <= n,
            tx_pre(state@, *spec),
            state@.validator_registry.len() == v0.validator_registry.len(),
            state@.slot == v0.slot,
            fold_state(state@, views.skip(i as int), f) == fold_state(v0, views, f),
        decreases n - i,
    {
        proof {
            assert(pred(views[i as int]));
            assert(views.skip(i as int).first() == views[i as int]);
            assert(views.skip(i as int).drop_first() =~= views.skip(i + 1));
        }
        let ghost cur = state@;
        let a = &attestations[i];
        let proposer = get_beacon_proposer_index(state, spec);
        let pa = crate::types::PendingAttestation {
            aggregation_bitfield: a.aggregation_bitfield.duplicate(),
            data: a.data,
            inclusion_delay: exec_sat_sub(state.slot, a.data.slot),
            proposer_index: proposer as u64,
        };
        let ce = state.current_epoch(spec);
        if a.data.target_epoch == ce {
            state.current_epoch_attestations.push(pa);
            proof {
                assert(state@.current_epoch_attestations =~= cur.current_epoch_attestations.push(
                    f(cur, views[i as int]).current_epoch_attestations.last(),
                ));
            }
        } else {
            state.previous_epoch_attestations.push(pa);
            proof {
                assert(state@.previous_epoch_attestations =~= cur.previous_epoch_attestations.push(
                    f(cur, views[i as int]).previous_epoch_attestations.last(),
                ));
            }
        }
        proof {
            assert(state@ == f(cur, views[i as int]));
            assert(fold_state(cur, views.skip(i as int), f) == fold_state(
                state@,
                views.skip(i + 1),
                f,
            ));
        }
        i = i + 1;
    }
    proof {
        assert(views.skip(n as int) =~= Seq::<crate::types::AttestationView>::empty());
    }
    Ok(())
}

// ---------------------------------------------------------------------------
// Deposits
// ---------------------------------------------------------------------------

/// The root obtained by folding a Merkle branch upwards from `leaf` at
/// position `index`.
pub open spec fn spec_merkle_root_from_branch(leaf: Hash256, branch: Seq<Hash256>, index: u64) -> Hash256
    decreases branch.len(),
{
    if branch.len() == 0 {
        leaf
    } else {
        let combined = if index % 2 == 0 {
            spec_hash_of_bytes(leaf.spec_bytes() + branch.first().spec_bytes())
        } else {
            spec_hash_of_bytes(branch.first().spec_bytes() + leaf.spec_bytes())
        };
        spec_merkle_root_from_branch(combined, branch.drop_first(), index / 2)
    }
}

/// Folds a Merkle branch upwards from `leaf` at position `index`.
#[verifier::loop_isolation(false)]
pub fn merkle_root_from_branch(leaf: Hash256, branch: &Vec<Hash256>, index: u64) -> (r: Hash256)
    ensures
        r == spec_merkle_root_from_branch(leaf, branch@, index),
{
    let mut acc = leaf;
    let mut idx = index;
    let mut i: usize = 0;
    let n = branch.len();
    proof {
        assert(branch@.skip(0) =~= branch@);
    }
    while i < n
        invariant
            i <= n,
            n == branch@.len(),
            spec_merkle_root_from_branch(leaf, branch@, index) == spec_merkle_root_from_branch(
                acc,
                branch@.skip(i as int),
                idx,
            ),
        decreases n - i,
    {
        proof {
            assert(branch@.skip(i as int).first() == branch@[i as int]);
            assert(branch@.skip(i as int).drop_first() =~= branch@.skip(i + 1));
        }
        let sibling = branch[i];
        let mut bytes: Vec<u8> = Vec::new();
        if idx % 2 == 0 {
            acc.push_bytes(&mut bytes);
            sibling.push_bytes(&mut bytes);
            proof {
                assert(bytes@ =~= acc.spec_bytes() + sibling.spec_bytes());
            }
        } else {
            sibling.push_bytes(&mut bytes);
            acc.push_bytes(&mut bytes);
            proof {
                assert(bytes@ =~= sibling.spec_bytes() + acc.spec_bytes());
            }
        }
        acc = hash_of_bytes(&bytes);
        idx = idx / 2;
        i = i + 1;
    }
    proof {
        assert(branch@.skip(n as int) =~= Seq::<Hash256>::empty());
    }
    acc
}

/// The deposit's branch has the contract depth plus the length leaf, and
/// folds up to the state's deposit root from the deposit's own index.
pub open spec fn spec_valid_deposit_proof(
    v: BeaconStateView,
    d: crate::types::DepositView,
    cs: ChainSpec,
) -> bool {
    &&& d.proof.len() == cs.deposit_contract_tree_depth + 1
    &&& spec_merkle_root_from_branch(
        crate::beacon_codec::spec_deposit_data_root(d.data),
        d.proof,
        d.index,
    ) == v.latest_eth1_data.deposit_root
}

pub fn verify_deposit_merkle_proof(
    state: &BeaconState,
    deposit: &crate::types::Deposit,
    spec: &ChainSpec,
) -> (r: bool)
    requires
        tx_pre(state@, *spec),
    ensures
        r == spec_valid_deposit_proof(state@, deposit@, *spec),
{
    let depth_plus_one = spec.deposit_contract_tree_depth + 1;
    if deposit.proof.len() as u64 != depth_plus_one {
        return false;
    }
    let leaf = crate::beacon_codec::deposit_data_root(&deposit.data);
    let root = merkle_root_from_branch(leaf, &deposit.proof, deposit.index);
    root.eq_root(&state.latest_eth1_data.deposit_root)
}

/// The index of the validator holding `pk`, if registered.
pub open spec fn spec_pubkey_index(regs: Seq<Validator>, pk: crate::types::PublicKey) -> Option<
    int,
>
    decreases regs.len(),
{
    if regs.len() == 0 {
        None
    } else if regs[0].pubkey == pk {
        Some(0)
    } else {
        match spec_pubkey_index(regs.drop_first(), pk) {
            Option::None => None,
            Option::Some(k) => Some(k + 1),
        }
    }
}

pub open spec fn spec_pubkey_index_partial(
    regs: Seq<Validator>,
    pk: crate::types::PublicKey,
    k: int,
) -> bool {
    spec_pubkey_index(regs, pk) == (match spec_pubkey_index(regs.skip(k), pk) {
        Option::None => None::<int>,
        Option::Some(j) => Some(j + k),
    })
}

fn find_validator_index(regs: &Vec<Validator>, pk: &crate::types::PublicKey) -> (r: Option<usize>)
    ensures
        match r {
            Option::Some(k) => spec_pubkey_index(regs@, *pk) == Some(k as int) && k < regs@.len(),
            Option::None => spec_pubkey_index(regs@, *pk) is None,
        },
{
    let n = regs.len();
    let mut k: usize = 0;
    proof {
        assert(regs@.skip(0) =~= regs@);
    }
    while k < n
        invariant
            n == regs@.len(),
            k <= n,
            spec_pubkey_index_partial(regs@, *pk, k as int),
        decreases n - k,
    {
        proof {
            assert(regs@.skip(k as int).first() == regs@[k as int]);
            assert(regs@.skip(k as int).drop_first() =~= regs@.skip(k + 1));
        }
        if regs[k].pubkey == *pk {
            return Some(k);
        }
        k = k + 1;
    }
    proof {
        assert(regs@.skip(n as int) =~= Seq::<Validator>::empty());
    }
    None
}

/// One deposit applied: a registered key tops up its balance; a new key
/// joins the registry if its deposit signature is valid, and is otherwise
/// skipped — the deposit index advances either way.
pub open spec fn spec_apply_deposit(
    v: BeaconStateView,
    d: crate::types::DepositView,
    cs: ChainSpec,
) -> BeaconStateView {
    let v1 = BeaconStateView { deposit_index: sat_add(v.deposit_index, 1), ..v };
    match spec_pubkey_index(v1.validator_registry, d.data.pubkey) {
        Option::Some(k) => BeaconStateView {
            balances: v1.balances.update(k, sat_add(v1.balances[k], d.data.amount)),
            ..v1
        },
        Option::None => {
            if d.data.signature == Signature::spec_signed(
                crate::beacon_codec::spec_deposit_message_root(d.data),
                spec_get_domain(v1.fork, v1.spec_current_epoch(cs), Domain::Deposit),
                d.data.pubkey,
            ) {
                let effective = if sat_sub(
                    d.data.amount,
                    (d.data.amount % cs.effective_balance_increment) as u64,
                ) <= cs.max_effective_balance {
                    sat_sub(d.data.amount, (d.data.amount % cs.effective_balance_increment) as u64)
                } else {
                    cs.max_effective_balance
                };
                let new_val = Validator {
                    pubkey: d.data.pubkey,
                    withdrawal_credentials: d.data.withdrawal_credentials,
                    activation_eligibility_epoch: cs.far_future_epoch,
                    activation_epoch: cs.far_future_epoch,
                    exit_epoch: cs.far_future_epoch,
                    withdrawable_epoch: cs.far_future_epoch,
                    effective_balance: effective,
                    slashed: false,
                };
                BeaconStateView {
                    validator_registry: v1.validator_registry.push(new_val),
                    balances: v1.balances.push(d.data.amount),
                    ..v1
                }
            } else {
                v1
            }
        },
    }
}

/// The in-order deposit walk: each deposit must carry the state's running
/// deposit index.
pub open spec fn spec_dep_go(
    v: BeaconStateView,
    xs: Seq<crate::types::DepositView>,
    i: int,
    cs: ChainSpec,
) -> Result<BeaconStateView, BlockError>
    decreases xs.len(),
{
    if xs.len() == 0 {
        Ok(v)
    } else if xs.first().index != v.deposit_index {
        Err(BlockError::InvalidDeposit { index: i as u64 })
    } else {
        spec_dep_go(spec_apply_deposit(v, xs.first(), cs), xs.drop_first(), i + 1, cs)
    }
}

/// The exact number of deposits owed, the Merkle proof of each against the
/// adopted eth1 deposit root, then the in-order walk.
pub open spec fn spec_process_deposits(
    v: BeaconStateView,
    xs: Seq<crate::types::DepositView>,
    cs: ChainSpec,
) -> Result<BeaconStateView, BlockError>
    recommends
        tx_pre(v, cs),
{
    let expected: u64 = if sat_sub(v.latest_eth1_data.deposit_count, v.deposit_index)
        <= cs.max_deposits {
        sat_sub(v.latest_eth1_data.deposit_count, v.deposit_index)
    } else {
        cs.max_deposits
    };
    if xs.len() != expected {
        Err(BlockError::DepositCountInvalid)
    } else {
        match first_failing(
            xs,
            |x: crate::types::DepositView| spec_valid_deposit_proof(v, x, cs),
        ) {
            Option::Some(i) => Err(BlockError::InvalidDeposit { index: i as u64 }),
            Option::None => spec_dep_go(v, xs, 0, cs),
        }
    }
}

/// Validates the deposit list and updates the state; a rejected list
/// leaves the state untouched — the walk runs on a working copy.
pub fn process_deposits(
    state: &mut BeaconState,
    deposits: &Vec<crate::types::Deposit>,
    spec: &ChainSpec,
) -> (r: Result<(), BlockError>)
    requires
        tx_pre(old(state)@, *spec),
    ensures
        ({
            let views = Seq::new(deposits@.len(), |i: int| deposits@[i]@);
            let sp = spec_process_deposits(old(state)@, views, *spec);
            match r {
                Ok(()) => sp matches Ok(v2) && final(state)@ == v2 && tx_pre(final(state)@, *spec),
                Err(e) => sp matches Err(e2) && e == e2 && final(state)@ == old(state)@,
            }
        }),
{
    let mut working = state.duplicate();
    match process_deposits_apply(&mut working, deposits, spec) {
        Ok(()) => {
            *state = working;
            Ok(())
        },
        Err(e) => Err(e),
    }
}

#[verifier::loop_isolation(false)]
fn process_deposits_apply(
    state: &mut BeaconState,
    deposits: &Vec<crate::types::Deposit>,
    spec: &ChainSpec,
) -> (r: Result<(), BlockError>)
    requires
        tx_pre(old(state)@, *spec),
    ensures
        ({
            let views = Seq::new(deposits@.len(), |i: int| deposits@[i]@);
            let sp = spec_process_deposits(old(state)@, views, *spec);
            match r {
                Ok(()) => sp matches Ok(v2) && final(state)@ == v2 && tx_pre(final(state)@, *spec),
                Err(e) => sp matches Err(e2) && e == e2,
            }
        }),
{
    let ghost v0 = state@;
    let ghost views = Seq::new(deposits@.len(), |i: int| deposits@[i]@);
    let ghost pred = |x: crate::types::DepositView| spec_valid_deposit_proof(v0, x, *spec);
    let available = exec_sat_sub(state.latest_eth1_data.deposit_count, state.deposit_index);
    let expected = if available <= spec.max_deposits {
        available
    } else {
        spec.max_deposits
    };
    if deposits.len() as u64 != expected {
        return Err(BlockError::DepositCountInvalid);
    }
    let n = deposits.len();
    let mut i: usize = 0;
    while i < n
        invariant
            i <= n,
            forall|j: int| 0 <= j < i ==> #[trigger] pred(views[j]),
        decreases n - i,
    {
        if !verify_deposit_merkle_proof(state, &deposits[i], spec) {
            proof {
                lemma_first_failing_at(views, pred, i as int);
            }
            return Err(BlockError::InvalidDeposit { index: i as u64 });
        }
        i = i + 1;
    }
    proof {
        lemma_first_failing_none(views, pred);
    }
    let mut i: usize = 0;
    proof {
        assert(views.skip(0) =~= views);
    }
    while i < n
        invariant
            i <= n,
            tx_pre(state@, *spec),
            state@.slot == v0.slot,
            spec_dep_go(v0, views, 0, *spec) == (match spec_dep_go(
                state@,
                views.skip(i as int),
                i as int,
                *spec,
            ) {
                Result::<BeaconStateView, BlockError>::Ok(v2) => Ok(v2),
                Result::<BeaconStateView, BlockError>::Err(e) => Err(e),
            }),
        decreases n - i,
    {
        proof {
            assert(views.skip(i as int).first() == views[i as int]);
            assert(views.skip(i as int).drop_first() =~= views.skip(i + 1));
        }
        let d = &deposits[i];
        if d.index != state.deposit_index {
            return Err(BlockError::InvalidDeposit { index: i as u64 });
        }
        let ghost cur = state@;
        state.deposit_index = exec_sat_add(state.deposit_index, 1);
        let ghost v1 = state@;
        match find_validator_index(&state.validator_registry, &d.data.pubkey) {
            Option::Some(k) => {
                let b = state.balances[k];
                state.balances.set(k, exec_sat_add(b, d.data.amount));
            },
            Option::None => {
                let msg = crate::beacon_codec::deposit_message_root(&d.data);
                let ce = state.current_epoch(spec);
                let domain = get_domain(&state.fork, ce, Domain::Deposit);
                if d.data.signature.verify(msg, domain, &d.data.pubkey) {
                    let raw = exec_sat_sub(
                        d.data.amount,
                        d.data.amount % spec.effective_balance_increment,
                    );
                    let effective = if raw <= spec.max_effective_balance {
                        raw
                    } else {
                        spec.max_effective_balance
                    };
                    let new_val = Validator {
                        pubkey: d.data.pubkey,
                        withdrawal_credentials: d.data.withdrawal_credentials,
                        activation_eligibility_epoch: spec.far_future_epoch,
                        activation_epoch: spec.far_future_epoch,
                        exit_epoch: spec.far_future_epoch,
                        withdrawable_epoch: spec.far_future_epoch,
                        effective_balance: effective,
                        slashed: false,
                    };
                    state.validator_registry.push(new_val);
                    state.balances.push(d.data.amount);
                }
            },
        }
        let reg_len_after = state.validator_registry.len();
        proof {
            assert(state@.validator_registry.len() <= u64::MAX);
            assert(state@ == spec_apply_deposit(cur, views[i as int], *spec));
        }
        i = i + 1;
    }
    proof {
        assert(views.skip(n as int) =~= Seq::<crate::types::DepositView>::empty());
    }
    Ok(())
}


// ---------------------------------------------------------------------------
// Attester slashings
// ---------------------------------------------------------------------------

/// A sound indexed attestation: at least one signer, strictly increasing
/// in-range indices, and the committee's aggregate signature over the data.
pub open spec fn spec_valid_indexed(
    v: BeaconStateView,
    ia: crate::types::IndexedAttestationView,
    cs: ChainSpec,
) -> bool {
    &&& ia.validator_indices.len() >= 1
    &&& forall|k: int|
        0 <= k && k + 1 < ia.validator_indices.len() ==> #[trigger] ia.validator_indices[k]
            < ia.validator_indices[k + 1]
    &&& forall|k: int|
        0 <= k < ia.validator_indices.len() ==> #[trigger] ia.validator_indices[k]
            < v.validator_registry.len()
    &&& ia.signature == crate::types::AggregateSignature::spec_signed(
        spec_attestation_data_root(ia.data),
        spec_get_domain(v.fork, ia.data.target_epoch, Domain::Attestation),
    )
}

pub fn verify_indexed_attestation(
    state: &BeaconState,
    indexed: &crate::types::IndexedAttestation,
    spec: &ChainSpec,
) -> (r: bool)
    requires
        tx_pre(state@, *spec),
    ensures
        r == spec_valid_indexed(state@, indexed@, *spec),
{
    let m = indexed.validator_indices.len();
    if m == 0 {
        return false;
    }
    let n = state.validator_registry.len();
    let mut k: usize = 0;
    while k < m
        invariant
            m == indexed@.validator_indices.len(),
            n == state@.validator_registry.len(),
            k <= m,
            forall|j: int|
                0 <= j < k && j + 1 < m ==> #[trigger] indexed@.validator_indices[j]
                    < indexed@.validator_indices[j + 1],
            forall|j: int|
                0 <= j < k ==> #[trigger] indexed@.validator_indices[j]
                    < state@.validator_registry.len(),
        decreases m - k,
    {
        if !(indexed.validator_indices[k] < n as u64) {
            return false;
        }
        if k + 1 < m {
            if !(indexed.validator_indices[k] < indexed.validator_indices[k + 1]) {
                return false;
            }
        }
        k = k + 1;
    }
    let root = attestation_data_root(&indexed.data);
    let domain = get_domain(&state.fork, indexed.data.target_epoch, Domain::Attestation);
    indexed.signature.verify(root, domain)
}

/// Double vote or surround vote.
pub open spec fn spec_is_slashable_data(
    d1: crate::types::AttestationData,
    d2: crate::types::AttestationData,
) -> bool {
    ||| (d1 != d2 && d1.target_epoch == d2.target_epoch)
    ||| (d1.source_epoch < d2.source_epoch && d2.target_epoch < d1.target_epoch)
}

/// The validators named by both attestations that are in the registry and
/// not yet slashed, in the first attestation's order.
pub open spec fn spec_slashable_indices(
    v: BeaconStateView,
    a1: Seq<u64>,
    a2: Seq<u64>,
) -> Seq<u64>
    decreases a1.len(),
{
    if a1.len() == 0 {
        Seq::empty()
    } else {
        let rest = spec_slashable_indices(v, a1.drop_first(), a2);
        let x = a1.first();
        if a2.contains(x) && x < v.validator_registry.len() && !v.validator_registry[x as int].slashed {
            seq![x] + rest
        } else {
            rest
        }
    }
}

fn contains_u64(xs: &Vec<u64>, x: u64) -> (r: bool)
    ensures
        r == xs@.contains(x),
{
    let n = xs.len();
    let mut i: usize = 0;
    while i < n
        invariant
            n == xs@.len(),
            i <= n,
            forall|j: int| 0 <= j < i ==> xs@[j] != x,
        decreases n - i,
    {
        if xs[i] == x {
            assert(xs@[i as int] == x);
            return true;
        }
        i = i + 1;
    }
    assert(!xs@.contains(x));
    false
}

/// Collects the slashable intersection of the two index lists.
#[verifier::loop_isolation(false)]
fn get_slashable_indices_exec(
    state: &BeaconState,
    a1: &Vec<u64>,
    a2: &Vec<u64>,
) -> (r: Vec<u64>)
    ensures
        r@ == spec_slashable_indices(state@, a1@, a2@),
        forall|j: int| 0 <= j < r@.len() ==> #[trigger] r@[j] < state@.validator_registry.len(),
{
    let n = a1.len();
    let reg_len = state.validator_registry.len();
    let mut out: Vec<u64> = Vec::new();
    let mut i: usize = 0;
    proof {
        assert(a1@.skip(0) =~= a1@);
    }
    while i < n
        invariant
            i <= n,
            forall|j: int| 0 <= j < out@.len() ==> #[trigger] out@[j] < state@.validator_registry.len(),
            spec_slashable_indices(state@, a1@, a2@) == out@ + spec_slashable_indices(
                state@,
                a1@.skip(i as int),
                a2@,
            ),
        decreases n - i,
    {
        proof {
            assert(a1@.skip(i as int).first() == a1@[i as int]);
            assert(a1@.skip(i as int).drop_first() =~= a1@.skip(i + 1));
        }
        let x = a1[i];
        let ghost pre = out@;
        if contains_u64(a2, x) && x < reg_len as u64 {
            if !state.validator_registry[x as usize].slashed {
                out.push(x);
                proof {
                    assert(pre + (seq![x] + spec_slashable_indices(state@, a1@.skip(i + 1), a2@))
                        =~= out@ + spec_slashable_indices(state@, a1@.skip(i + 1), a2@));
                }
            }
        }
        i = i + 1;
    }
    proof {
        assert(a1@.skip(n as int) =~= Seq::<u64>::empty());
        assert(spec_slashable_indices(state@, Seq::<u64>::empty(), a2@) =~= Seq::<u64>::empty());
        assert(out@ + Seq::<u64>::empty() =~= out@);
    }
    out
}

/// Slashes every listed validator in order, the block proposer collecting
/// each whistleblower reward.
pub open spec fn spec_apply_slashes(
    v: BeaconStateView,
    idxs: Seq<u64>,
    cs: ChainSpec,
) -> BeaconStateView
    decreases idxs.len(),
{
    if idxs.len() == 0 {
        v
    } else {
        spec_apply_slashes(
            spec_slash_validator(v, idxs.first() as int, spec_proposer_of(v, cs), cs),
            idxs.drop_first(),
            cs,
        )
    }
}

/// Slashes every validator in `slashable`, in order.
#[verifier::loop_isolation(false)]
fn apply_slashes(state: &mut BeaconState, slashable: &Vec<u64>, spec: &ChainSpec)
    requires
        tx_pre(old(state)@, *spec),
        forall|j: int|
            0 <= j < slashable@.len() ==> #[trigger] slashable@[j]
                < old(state)@.validator_registry.len(),
    ensures
        final(state)@ == spec_apply_slashes(old(state)@, slashable@, *spec),
        tx_pre(final(state)@, *spec),
        final(state)@.validator_registry.len() == old(state)@.validator_registry.len(),
        final(state)@.slot == old(state)@.slot,
{
    let ghost cur0 = state@;
    let m = slashable.len();
    let mut k: usize = 0;
    proof {
        assert(slashable@.skip(0) =~= slashable@);
    }
    while k < m
        invariant
            k <= m,
            tx_pre(state@, *spec),
            state@.validator_registry.len() == cur0.validator_registry.len(),
            state@.slot == cur0.slot,
            spec_apply_slashes(state@, slashable@.skip(k as int), *spec) == spec_apply_slashes(
                cur0,
                slashable@,
                *spec,
            ),
        decreases m - k,
    {
        proof {
            assert(slashable@.skip(k as int).first() == slashable@[k as int]);
            assert(slashable@.skip(k as int).drop_first() =~= slashable@.skip(k + 1));
        }
        let reg_len = state.validator_registry.len();
        proof {
            assert(slashable@[k as int] < reg_len as u64);
        }
        let whistleblower = get_beacon_proposer_index(state, spec);
        let target = slashable[k] as usize;
        slash_validator(state, target, whistleblower, spec);
        k = k + 1;
    }
    proof {
        assert(slashable@.skip(m as int) =~= Seq::<u64>::empty());
    }
}

/// One attester slashing validated against the running state and applied:
/// both indexed attestations sound, the data pair slashable, and at least
/// one validator left to slash.
pub open spec fn spec_as_go(
    v: BeaconStateView,
    xs: Seq<crate::types::AttesterSlashingView>,
    i: int,
    cs: ChainSpec,
) -> Result<BeaconStateView, BlockError>
    decreases xs.len(),
{
    if xs.len() == 0 {
        Ok(v)
    } else {
        let sl = xs.first();
        let slashable = spec_slashable_indices(
            v,
            sl.attestation_1.validator_indices,
            sl.attestation_2.validator_indices,
        );
        if !spec_valid_indexed(v, sl.attestation_1, cs) || !spec_valid_indexed(
            v,
            sl.attestation_2,
            cs,
        ) || !spec_is_slashable_data(sl.attestation_1.data, sl.attestation_2.data)
            || slashable.len() == 0 {
            Err(BlockError::InvalidAttesterSlashing { index: i as u64 })
        } else {
            spec_as_go(spec_apply_slashes(v, slashable, cs), xs.drop_first(), i + 1, cs)
        }
    }
}

pub open spec fn spec_process_attester_slashings(
    v: BeaconStateView,
    xs: Seq<crate::types::AttesterSlashingView>,
    cs: ChainSpec,
) -> Result<BeaconStateView, BlockError>
    recommends
        tx_pre(v, cs),
{
    if xs.len() > cs.max_attester_slashings {
        Err(BlockError::MaxAttesterSlashingsExceeded)
    } else {
        spec_as_go(v, xs, 0, cs)
    }
}

/// Validates the attester slashings and updates the state; a rejected
/// list leaves the state untouched — the walk runs on a working copy.
pub fn process_attester_slashings(
    state: &mut BeaconState,
    attester_slashings: &Vec<crate::types::AttesterSlashing>,
    spec: &ChainSpec,
) -> (r: Result<(), BlockError>)
    requires
        tx_pre(old(state)@, *spec),
    ensures
        ({
            let views = Seq::new(attester_slashings@.len(), |i: int| attester_slashings@[i]@);
            let sp = spec_process_attester_slashings(old(state)@, views, *spec);
            match r {
                Ok(()) => sp matches Ok(v2) && final(state)@ == v2 && tx_pre(final(state)@, *spec),
                Err(e) => sp matches Err(e2) && e == e2 && final(state)@ == old(state)@,
            }
        }),
{
    let mut working = state.duplicate();
    match process_attester_slashings_apply(&mut working, attester_slashings, spec) {
        Ok(()) => {
            *state = working;
            Ok(())
        },
        Err(e) => Err(e),
    }
}

#[verifier::loop_isolation(false)]
#[verifier::rlimit(100)]
fn process_attester_slashings_apply(
    state: &mut BeaconState,
    attester_slashings: &Vec<crate::types::AttesterSlashing>,
    spec: &ChainSpec,
) -> (r: Result<(), BlockError>)
    requires
        tx_pre(old(state)@, *spec),
    ensures
        ({
            let views = Seq::new(attester_slashings@.len(), |i: int| attester_slashings@[i]@);
            let sp = spec_process_attester_slashings(old(state)@, views, *spec);
            match r {
                Ok(()) => sp matches Ok(v2) && final(state)@ == v2 && tx_pre(final(state)@, *spec),
                Err(e) => sp matches Err(e2) && e == e2,
            }
        }),
{
    let ghost v0 = state@;
    let ghost views = Seq::new(attester_slashings@.len(), |i: int| attester_slashings@[i]@);
    let n = attester_slashings.len();
    if n as u64 > spec.max_attester_slashings {
        return Err(BlockError::MaxAttesterSlashingsExceeded);
    }
    let mut i: usize = 0;
    proof {
        assert(views.skip(0) =~= views);
    }
    while i < n
        invariant
            i <= n,
            tx_pre(state@, *spec),
            state@.validator_registry.len() == v0.validator_registry.len(),
            state@.slot == v0.slot,
            spec_as_go(v0, views, 0, *spec) == (match spec_as_go(
                state@,
                views.skip(i as int),
                i as int,
                *spec,
            ) {
                Result::<BeaconStateView, BlockError>::Ok(v2) => Ok(v2),
                Result::<BeaconStateView, BlockError>::Err(e) => Err(e),
            }),
        decreases n - i,
    {
        proof {
            assert(views.skip(i as int).first() == views[i as int]);
            assert(views.skip(i as int).drop_first() =~= views.skip(i + 1));
        }
        let sl = &attester_slashings[i];
        let ok1 = verify_indexed_attestation(state, &sl.attestation_1, spec);
        let ok2 = verify_indexed_attestation(state, &sl.attestation_2, spec);
        let d1 = sl.attestation_1.data;
        let d2 = sl.attestation_2.data;
        let slashable_data = (d1 != d2 && d1.target_epoch == d2.target_epoch) || (d1.source_epoch
            < d2.source_epoch && d2.target_epoch < d1.target_epoch);
        let slashable = get_slashable_indices_exec(
            state,
            &sl.attestation_1.validator_indices,
            &sl.attestation_2.validator_indices,
        );
        if !ok1 || !ok2 || !slashable_data || slashable.len() == 0 {
            return Err(BlockError::InvalidAttesterSlashing { index: i as u64 });
        }
        let ghost cur = state@;
        apply_slashes(state, &slashable, spec);
        proof {
            assert(state@ == spec_apply_slashes(cur, slashable@, *spec));
        }
        i = i + 1;
    }
    proof {
        assert(views.skip(n as int) =~= Seq::<crate::types::AttesterSlashingView>::empty());
    }
    Ok(())
}

// ---------------------------------------------------------------------------
// The whole per-block transition
// ---------------------------------------------------------------------------

/// The per-block transition as one function of the state view and the
/// block view.  The order of the steps is contractual: header, randao,
/// eth1 vote, proposer slashings, attester slashings, attestations,
/// deposits, exits, transfers.
pub open spec fn spec_per_block(
    v: BeaconStateView,
    b: crate::types::BeaconBlockView,
    verify_sig: bool,
    cs: ChainSpec,
) -> Result<BeaconStateView, BlockError>
    recommends
        tx_pre(v, cs),
{
    match spec_process_block_header(v, b, verify_sig, cs) {
        Result::<BeaconStateView, BlockError>::Err(e) => Err(e),
        Result::<BeaconStateView, BlockError>::Ok(v1) => match spec_process_randao(v1, b, cs) {
            Result::<BeaconStateView, BlockError>::Err(e) => Err(e),
            Result::<BeaconStateView, BlockError>::Ok(v2) => {
                let v3 = spec_process_eth1_data(v2, b.body.eth1_data, cs);
                match spec_process_proposer_slashings(v3, b.body.proposer_slashings, cs) {
                    Result::<BeaconStateView, BlockError>::Err(e) => Err(e),
                    Result::<BeaconStateView, BlockError>::Ok(v4) => match spec_process_attester_slashings(
                        v4,
                        b.body.attester_slashings,
                        cs,
                    ) {
                        Result::<BeaconStateView, BlockError>::Err(e) => Err(e),
                        Result::<BeaconStateView, BlockError>::Ok(v5) => match spec_process_attestations(
                            v5,
                            b.body.attestations,
                            cs,
                        ) {
                            Result::<BeaconStateView, BlockError>::Err(e) => Err(e),
                            Result::<BeaconStateView, BlockError>::Ok(v6) => match spec_process_deposits(
                                v6,
                                b.body.deposits,
                                cs,
                            ) {
                                Result::<BeaconStateView, BlockError>::Err(e) => Err(e),
                                Result::<BeaconStateView, BlockError>::Ok(v7) => match spec_process_exits(
                                    v7,
                                    b.body.voluntary_exits,
                                    cs,
                                ) {
                                    Result::<BeaconStateView, BlockError>::Err(e) => Err(e),
                                    Result::<BeaconStateView, BlockError>::Ok(v8) => spec_process_transfers(
                                        v8,
                                        b.body.transfers,
                                        cs,
                                    ),
                                },
                            },
                        },
                    },
                }
            },
        },
    }
}

fn per_block_processing_signature_optional(
    state: &mut BeaconState,
    block: &BeaconBlock,
    should_verify_block_signature: bool,
    spec: &ChainSpec,
) -> (r: Result<(), BlockError>)
    requires
        tx_pre(old(state)@, *spec),
    ensures
        ({
            let sp = spec_per_block(old(state)@, block@, should_verify_block_signature, *spec);
            match r {
                Ok(()) => sp matches Ok(v2) && final(state)@ == v2 && tx_pre(final(state)@, *spec),
                Err(e) => sp matches Err(e2) && e == e2,
            }
        }),
{
    let r1 = process_block_header(state, block, spec, should_verify_block_signature);
    if let Err(e) = r1 {
        return Err(e);
    }
    let r2 = process_randao(state, block, spec);
    if let Err(e) = r2 {
        return Err(e);
    }
    let r3 = process_eth1_data(state, &block.body.eth1_data, spec);
    if let Err(e) = r3 {
        return Err(e);
    }
    let r4 = process_proposer_slashings(state, &block.body.proposer_slashings, spec);
    if let Err(e) = r4 {
        return Err(e);
    }
    let r5 = process_attester_slashings(state, &block.body.attester_slashings, spec);
    if let Err(e) = r5 {
        return Err(e);
    }
    let r6 = process_attestations(state, &block.body.attestations, spec);
    if let Err(e) = r6 {
        return Err(e);
    }
    let r7 = process_deposits(state, &block.body.deposits, spec);
    if let Err(e) = r7 {
        return Err(e);
    }
    let r8 = process_exits(state, &block.body.voluntary_exits, spec);
    if let Err(e) = r8 {
        return Err(e);
    }
    let r9 = process_transfers(state, &block.body.transfers, spec);
    if let Err(e) = r9 {
        return Err(e);
    }
    Ok(())
}


// ---------------------------------------------------------------------------
// Fields the per-block transition never touches
// ---------------------------------------------------------------------------

/// A fold whose step keeps the slot and the finalized epoch keeps both.
pub proof fn lemma_fold_state_fixed<T>(
    v: BeaconStateView,
    xs: Seq<T>,
    f: spec_fn(BeaconStateView, T) -> BeaconStateView,
)
    requires
        forall|s: BeaconStateView, x: T|
            (#[trigger] f(s, x)).slot == s.slot && f(s, x).finalized_epoch == s.finalized_epoch,
    ensures
        fold_state(v, xs, f).slot == v.slot,
        fold_state(v, xs, f).finalized_epoch == v.finalized_epoch,
    decreases xs.len(),
{
    if xs.len() > 0 {
        lemma_fold_state_fixed(f(v, xs.first()), xs.drop_first(), f);
    }
}

proof fn lemma_apply_slashes_fixed(v: BeaconStateView, idxs: Seq<u64>, cs: ChainSpec)
    ensures
        spec_apply_slashes(v, idxs, cs).slot == v.slot,
        spec_apply_slashes(v, idxs, cs).finalized_epoch == v.finalized_epoch,
    decreases idxs.len(),
{
    if idxs.len() > 0 {
        lemma_apply_slashes_fixed(
            spec_slash_validator(v, idxs.first() as int, spec_proposer_of(v, cs), cs),
            idxs.drop_first(),
            cs,
        );
    }
}

proof fn lemma_as_go_fixed(
    v: BeaconStateView,
    xs: Seq<crate::types::AttesterSlashingView>,
    i: int,
    cs: ChainSpec,
)
    ensures
        spec_as_go(v, xs, i, cs) matches Ok(v2) ==> v2.slot == v.slot && v2.finalized_epoch
            == v.finalized_epoch,
    decreases xs.len(),
{
    if xs.len() > 0 {
        let sl = xs.first();
        let slashable = spec_slashable_indices(
            v,
            sl.attestation_1.validator_indices,
            sl.attestation_2.validator_indices,
        );
        lemma_apply_slashes_fixed(v, slashable, cs);
        lemma_as_go_fixed(spec_apply_slashes(v, slashable, cs), xs.drop_first(), i + 1, cs);
    }
}

proof fn lemma_dep_go_fixed(
    v: BeaconStateView,
    xs: Seq<crate::types::DepositView>,
    i: int,
    cs: ChainSpec,
)
    ensures
        spec_dep_go(v, xs, i, cs) matches Ok(v2) ==> v2.slot == v.slot && v2.finalized_epoch
            == v.finalized_epoch,
    decreases xs.len(),
{
    if xs.len() > 0 && xs.first().index == v.deposit_index {
        lemma_dep_go_fixed(spec_apply_deposit(v, xs.first(), cs), xs.drop_first(), i + 1, cs);
    }
}

/// The per-block transition touches neither the slot nor the finalized
/// epoch: on success both are carried through unchanged.
pub proof fn lemma_per_block_fixed_fields(
    v: BeaconStateView,
    b: crate::types::BeaconBlockView,
    verify_sig: bool,
    cs: ChainSpec,
)
    ensures
        spec_per_block(v, b, verify_sig, cs) matches Ok(v2) ==> v2.slot == v.slot
            && v2.finalized_epoch == v.finalized_epoch,
{
    match spec_process_block_header(v, b, verify_sig, cs) {
        Result::<BeaconStateView, BlockError>::Err(e) => {},
        Result::<BeaconStateView, BlockError>::Ok(v1) => {
            match spec_process_randao(v1, b, cs) {
                Result::<BeaconStateView, BlockError>::Err(e) => {},
                Result::<BeaconStateView, BlockError>::Ok(v2) => {
                    let v3 = spec_process_eth1_data(v2, b.body.eth1_data, cs);
                    match spec_process_proposer_slashings(v3, b.body.proposer_slashings, cs) {
                        Result::<BeaconStateView, BlockError>::Err(e) => {},
                        Result::<BeaconStateView, BlockError>::Ok(v4) => {
                            lemma_fold_state_fixed(v3, b.body.proposer_slashings, ps_apply(cs));
                            match spec_process_attester_slashings(v4, b.body.attester_slashings, cs) {
                                Result::<BeaconStateView, BlockError>::Err(e) => {},
                                Result::<BeaconStateView, BlockError>::Ok(v5) => {
                                    lemma_as_go_fixed(v4, b.body.attester_slashings, 0, cs);
                                    match spec_process_attestations(v5, b.body.attestations, cs) {
                                        Result::<BeaconStateView, BlockError>::Err(e) => {},
                                        Result::<BeaconStateView, BlockError>::Ok(v6) => {
                                            lemma_fold_state_fixed(
                                                v5,
                                                b.body.attestations,
                                                att_apply(cs),
                                            );
                                            match spec_process_deposits(v6, b.body.deposits, cs) {
                                                Result::<BeaconStateView, BlockError>::Err(e) => {},
                                                Result::<BeaconStateView, BlockError>::Ok(v7) => {
                                                    lemma_dep_go_fixed(v6, b.body.deposits, 0, cs);
                                                    match spec_process_exits(
                                                        v7,
                                                        b.body.voluntary_exits,
                                                        cs,
                                                    ) {
                                                        Result::<
                                                            BeaconStateView,
                                                            BlockError,
                                                        >::Err(e) => {},
                                                        Result::<
                                                            BeaconStateView,
                                                            BlockError,
                                                        >::Ok(v8) => {
                                                            lemma_fold_state_fixed(
                                                                v7,
                                                                b.body.voluntary_exits,
                                                                exit_apply(cs),
                                                            );
                                                            lemma_fold_state_fixed(
                                                                v8,
                                                                b.body.transfers,
                                                                transfer_apply(cs),
                                                            );
                                                        },
                                                    }
                                                },
                                            }
                                        },
                                    }
                                },
                            }
                        },
                    }
                },
            }
        },
    }
}

/// Validates the block and updates the state, signature checks included.
/// The transition runs on a working copy, so a rejected block leaves the
/// state untouched; the slot and the finalized epoch are never changed.
pub fn per_block_processing(
    state: &mut BeaconState,
    block: &BeaconBlock,
    spec: &ChainSpec,
) -> (r: Result<(), BlockError>)
    requires
        tx_pre(old(state)@, *spec),
    ensures
        ({
            let sp = spec_per_block(old(state)@, block@, true, *spec);
            match r {
                Ok(()) => sp matches Ok(v2) && final(state)@ == v2 && tx_pre(final(state)@, *spec),
                Err(e) => sp matches Err(e2) && e == e2 && final(state)@ == old(state)@,
            }
        }),
        final(state)@.slot == old(state)@.slot,
        final(state)@.finalized_epoch == old(state)@.finalized_epoch,
{
    proof {
        lemma_per_block_fixed_fields(old(state)@, block@, true, *spec);
    }
    let mut working = state.duplicate();
    match per_block_processing_signature_optional(&mut working, block, true, spec) {
        Ok(()) => {
            *state = working;
            Ok(())
        },
        Err(e) => Err(e),
    }
}

/// The same transition with the proposer-signature check skipped, for
/// replaying blocks already known to be properly signed.
pub fn per_block_processing_without_verifying_block_signature(
    state: &mut BeaconState,
    block: &BeaconBlock,
    spec: &ChainSpec,
) -> (r: Result<(), BlockError>)
    requires
        tx_pre(old(state)@, *spec),
    ensures
        ({
            let sp = spec_per_block(old(state)@, block@, false, *spec);
            match r {
                Ok(()) => sp matches Ok(v2) && final(state)@ == v2 && tx_pre(final(state)@, *spec),
                Err(e) => sp matches Err(e2) && e == e2 && final(state)@ == old(state)@,
            }
        }),
        final(state)@.slot == old(state)@.slot,
        final(state)@.finalized_epoch == old(state)@.finalized_epoch,
{
    proof {
        lemma_per_block_fixed_fields(old(state)@, block@, false, *spec);
    }
    let mut working = state.duplicate();
    match per_block_processing_signature_optional(&mut working, block, false, spec) {
        Ok(()) => {
            *state = working;
            Ok(())
        },
        Err(e) => Err(e),
    }
}

/// Determinism of the per-block transition: the result and the output
/// state are a function of the incoming state and block alone, so any
/// order of evaluation — sequential or parallel — yields the same outcome.
pub proof fn lemma_per_block_deterministic(
    v1: BeaconStateView,
    v2: BeaconStateView,
    b1: crate::types::BeaconBlockView,
    b2: crate::types::BeaconBlockView,
    verify_sig: bool,
    cs: ChainSpec,
)
    requires
        v1 == v2,
        b1 == b2,
    ensures
        spec_per_block(v1, b1, verify_sig, cs) == spec_per_block(v2, b2, verify_sig, cs),
{
}

} // verus!
