//! End-to-end state-transition tests: interop genesis, block proposal,
//! proposer slashing, and the chain-level outcomes.

use beacon_core::bytes_util::push_u64_be;
use beacon_core::chain::{BeaconChain, BlockProcessingOutcome};
use beacon_core::chain_spec::{ChainSpec, Domain};
use beacon_core::client::{ClientBuilder, ClientGenesis};
use beacon_core::digest::hash_of_bytes;
use beacon_core::hash256::Hash256;
use beacon_core::types::{
    get_domain, BeaconBlock, BeaconBlockBody, BeaconBlockHeader, ProposerSlashing, Signature,
};

fn interop_chain(validator_count: usize, genesis_time: u64) -> BeaconChain {
    let spec = ChainSpec::minimal();
    let builder = ClientBuilder::new()
        .chain_spec(spec)
        .memory_store()
        .dummy_eth1_backend()
        .beacon_chain_builder(ClientGenesis::Interop { validator_count, genesis_time })
        .expect("interop genesis should build");
    let builder = builder
        .system_time_slot_clock()
        .expect("slot clock should build");
    let builder = builder.build_beacon_chain().expect("beacon chain should build");
    let client = builder.build();
    client.beacon_chain.expect("client should hold a chain")
}

fn propose_block(chain: &BeaconChain, slot: u64, body: BeaconBlockBody) -> BeaconBlock {
    let spec = chain.spec;
    let parent_root = chain.head_root();
    let epoch = slot / spec.slots_per_epoch;
    let n = chain.head_state.validator_registry.len() as u64;
    let proposer_idx = ((slot - 1) % n) as usize;
    let pk = chain.head_state.validator_registry[proposer_idx].pubkey;
    let mut block = BeaconBlock {
        slot,
        previous_block_root: parent_root,
        state_root: Hash256::zero(),
        body,
        signature: Signature::empty_signature(),
    };
    let root = block.canonical_root();
    let domain = get_domain(&chain.head_state.fork, epoch, Domain::BeaconProposer);
    block.signature = Signature::sign(root, domain, pk);
    block
}

fn empty_body(chain: &BeaconChain, slot: u64) -> BeaconBlockBody {
    let spec = chain.spec;
    let epoch = slot / spec.slots_per_epoch;
    let n = chain.head_state.validator_registry.len() as u64;
    let proposer_idx = ((slot - 1) % n) as usize;
    let pk = chain.head_state.validator_registry[proposer_idx].pubkey;
    let mut msg = Vec::new();
    push_u64_be(&mut msg, epoch);
    let randao_msg = hash_of_bytes(&msg);
    let randao_domain = get_domain(&chain.head_state.fork, epoch, Domain::Randao);
    BeaconBlockBody {
        randao_reveal: Signature::sign(randao_msg, randao_domain, pk),
        eth1_data: chain.head_state.latest_eth1_data,
        proposer_slashings: Vec::new(),
        attester_slashings: Vec::new(),
        attestations: Vec::new(),
        deposits: Vec::new(),
        voluntary_exits: Vec::new(),
        transfers: Vec::new(),
    }
}

#[test]
fn interop_genesis_block_becomes_head() {
    let mut chain = interop_chain(8, 13371377);
    assert_eq!(chain.head_state.genesis_time, 13371377);
    assert_eq!(chain.head_state.validator_registry.len(), 8);
    // Validator 0 proposes at slot 1.
    assert_eq!(
        chain.head_state.validator_registry[0].pubkey,
        beacon_core::types::PublicKey { id: 1 }
    );
    let body = empty_body(&chain, 1);
    let block = propose_block(&chain, 1, body);
    let expected_root = block.canonical_root();
    chain.set_present_slot(1);
    let outcome = chain.process_block(block);
    assert!(matches!(outcome, BlockProcessingOutcome::Processed { .. }));
    assert!(chain.head_root().eq_root(&expected_root));
}

#[test]
fn proposer_slashing_marks_validator_and_reduces_balance() {
    let mut chain = interop_chain(8, 13371377);
    // Two conflicting headers for validator 3 at slot 5.
    let pk3 = chain.head_state.validator_registry[3].pubkey;
    let domain = get_domain(&chain.head_state.fork, 5 / chain.spec.slots_per_epoch, Domain::BeaconProposer);
    let mut header_1 = BeaconBlockHeader {
        slot: 5,
        previous_block_root: Hash256::from_low_u64(1),
        state_root: Hash256::zero(),
        body_root: Hash256::zero(),
        signature: Signature::empty_signature(),
    };
    let mut header_2 = BeaconBlockHeader {
        slot: 5,
        previous_block_root: Hash256::from_low_u64(2),
        state_root: Hash256::zero(),
        body_root: Hash256::zero(),
        signature: Signature::empty_signature(),
    };
    header_1.signature = Signature::sign(
        beacon_core::beacon_codec::header_signed_root(&header_1),
        domain,
        pk3,
    );
    header_2.signature = Signature::sign(
        beacon_core::beacon_codec::header_signed_root(&header_2),
        domain,
        pk3,
    );
    let slashing = ProposerSlashing { proposer_index: 3, header_1, header_2 };
    let mut body = empty_body(&chain, 1);
    body.proposer_slashings.push(slashing);
    let block = propose_block(&chain, 1, body);
    chain.set_present_slot(1);
    let outcome = chain.process_block(block);
    assert!(matches!(outcome, BlockProcessingOutcome::Processed { .. }));
    assert!(chain.head_state.validator_registry[3].slashed);
    let reward = chain.spec.max_effective_balance / chain.spec.whistleblowing_reward_quotient;
    assert_eq!(
        chain.head_state.balances[3],
        chain.spec.max_effective_balance - reward
    );
    // The block proposer (validator 0) collects the whistleblower reward.
    assert_eq!(
        chain.head_state.balances[0],
        chain.spec.max_effective_balance + reward
    );
}

#[test]
fn duplicate_block_is_already_known() {
    let mut chain = interop_chain(8, 13371377);
    let body = empty_body(&chain, 1);
    let block = propose_block(&chain, 1, body);
    let copy = block.duplicate();
    chain.set_present_slot(1);
    let first = chain.process_block(block);
    assert!(matches!(first, BlockProcessingOutcome::Processed { .. }));
    let second = chain.process_block(copy);
    assert!(matches!(second, BlockProcessingOutcome::BlockIsAlreadyKnown));
}

#[test]
fn finalized_epoch_never_decreases_across_blocks() {
    let mut chain = interop_chain(8, 13371377);
    let mut last_finalized = chain.head_state.finalized_epoch;
    for slot in 1..=9u64 {
        let body = empty_body(&chain, slot);
        let block = propose_block(&chain, slot, body);
        chain.set_present_slot(slot);
        let outcome = chain.process_block(block);
        assert!(matches!(outcome, BlockProcessingOutcome::Processed { .. }));
        assert!(chain.head_state.finalized_epoch >= last_finalized);
        last_finalized = chain.head_state.finalized_epoch;
    }
}

#[test]
fn unknown_parent_is_reported() {
    let mut chain = interop_chain(8, 13371377);
    let body = empty_body(&chain, 1);
    let mut block = propose_block(&chain, 1, body);
    block.previous_block_root = Hash256::from_low_u64(77);
    chain.set_present_slot(1);
    let outcome = chain.process_block(block);
    assert!(matches!(outcome, BlockProcessingOutcome::ParentUnknown { .. }));
}

#[test]
fn bad_block_signature_is_invalid() {
    let mut chain = interop_chain(8, 13371377);
    let body = empty_body(&chain, 1);
    let mut block = propose_block(&chain, 1, body);
    block.signature = Signature::empty_signature();
    chain.set_present_slot(1);
    let outcome = chain.process_block(block);
    assert!(matches!(outcome, BlockProcessingOutcome::InvalidBlock { .. }));
}

#[test]
fn future_slot_block_is_deferred() {
    let mut chain = interop_chain(8, 13371377);
    let body = empty_body(&chain, 1);
    let block = propose_block(&chain, 1, body);
    // The clock still says genesis.
    let outcome = chain.process_block(block);
    assert!(matches!(
        outcome,
        BlockProcessingOutcome::FutureSlot { present_slot: 0, block_slot: 1 }
    ));
}

#[test]
fn eth1_data_vote_majority_is_adopted() {
    // Half the voting period is 8 votes with the minimal constants; the
    // ninth identical vote adopts the value.
    let mut chain = interop_chain(8, 13371377);
    let new_eth1 = beacon_core::types::Eth1Data {
        deposit_root: Hash256::from_low_u64(5),
        deposit_count: 0,
        block_hash: Hash256::from_low_u64(6),
    };
    for slot in 1..=9u64 {
        let mut body = empty_body(&chain, slot);
        body.eth1_data = new_eth1;
        let block = propose_block(&chain, slot, body);
        chain.set_present_slot(slot);
        let outcome = chain.process_block(block);
        assert!(matches!(outcome, BlockProcessingOutcome::Processed { .. }));
    }
    assert_eq!(chain.head_state.latest_eth1_data, new_eth1);
}
