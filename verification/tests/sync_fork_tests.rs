//! Peer protocol and fork-choice tests: block ranges with skip slots, peer
//! classification, the head tiebreak, weights, and the shard-side pieces.

use beacon_core::bytes_util::push_u64_be;
use beacon_core::chain::{BeaconChain, BlockProcessingOutcome};
use beacon_core::chain_spec::{ChainSpec, Domain};
use beacon_core::client::{ClientBuilder, ClientGenesis, SlotClock};
use beacon_core::digest::hash_of_bytes;
use beacon_core::fork_choice::ReducedTree;
use beacon_core::genesis::{genesis_deposits, generate_deterministic_keypairs, int_to_bytes32};
use beacon_core::hash256::Hash256;
use beacon_core::shard_transition::{per_shard_slot_processing, PeriodCommitteeCache};
use beacon_core::shard_types::ShardState;
use beacon_core::sync::{
    status_message, GoodbyeReason, MessageProcessor, NetworkEvent, RPCRequest, RPCResponse,
    BlocksByRangeRequest, BlocksByRootRequest, StatusMessage,
};
use beacon_core::types::{
    get_domain, BeaconBlock, BeaconBlockBody, DepositData, PublicKey, Signature,
};

fn interop_chain_sync(validator_count: usize, genesis_time: u64) -> BeaconChain {
    let spec = ChainSpec::minimal();
    let builder = ClientBuilder::new()
        .chain_spec(spec)
        .memory_store()
        .no_eth1_backend()
        .beacon_chain_builder(ClientGenesis::Interop { validator_count, genesis_time })
        .expect("interop genesis should build");
    let builder = builder.system_time_slot_clock().expect("slot clock should build");
    let builder = builder.build_beacon_chain().expect("beacon chain should build");
    builder.build().beacon_chain.expect("client should hold a chain")
}

fn block_at(chain: &BeaconChain, slot: u64) -> BeaconBlock {
    let spec = chain.spec;
    let epoch = slot / spec.slots_per_epoch;
    let n = chain.head_state.validator_registry.len() as u64;
    let proposer_idx = ((slot - 1) % n) as usize;
    let pk = chain.head_state.validator_registry[proposer_idx].pubkey;
    let mut msg = Vec::new();
    push_u64_be(&mut msg, epoch);
    let randao_msg = hash_of_bytes(&msg);
    let randao_domain = get_domain(&chain.head_state.fork, epoch, Domain::Randao);
    let body = BeaconBlockBody {
        randao_reveal: Signature::sign(randao_msg, randao_domain, pk),
        eth1_data: chain.head_state.latest_eth1_data,
        proposer_slashings: Vec::new(),
        attester_slashings: Vec::new(),
        attestations: Vec::new(),
        deposits: Vec::new(),
        voluntary_exits: Vec::new(),
        transfers: Vec::new(),
    };
    let mut block = BeaconBlock {
        slot,
        previous_block_root: chain.head_root(),
        state_root: Hash256::zero(),
        body,
        signature: Signature::empty_signature(),
    };
    let root = block.canonical_root();
    let domain = get_domain(&chain.head_state.fork, epoch, Domain::BeaconProposer);
    block.signature = Signature::sign(root, domain, pk);
    block
}

fn chain_with_blocks_at(slots: &[u64]) -> (BeaconChain, Vec<BeaconBlock>) {
    let mut chain = interop_chain_sync(8, 13371377);
    let mut blocks = Vec::new();
    for &slot in slots {
        let block = block_at(&chain, slot);
        blocks.push(block.duplicate());
        chain.set_present_slot(slot);
        let outcome = chain.process_block(block);
        assert!(matches!(outcome, BlockProcessingOutcome::Processed { .. }));
    }
    (chain, blocks)
}

#[test]
fn blocks_by_range_with_skip_slots() {
    let (chain, blocks) = chain_with_blocks_at(&[4, 6, 9]);
    let mut mp = MessageProcessor::new(chain);
    let req = BlocksByRangeRequest { start_slot: 4, count: 6, step: 1 };
    mp.on_blocks_by_range_request(7, 1, req);
    // Three blocks — slots 4, 6 and 9 — in ascending order, then the
    // stream terminator.
    assert_eq!(mp.network.events.len(), 4);
    let expected = [
        beacon_core::beacon_codec::encode_beacon_block(&blocks[0]),
        beacon_core::beacon_codec::encode_beacon_block(&blocks[1]),
        beacon_core::beacon_codec::encode_beacon_block(&blocks[2]),
    ];
    for (i, exp) in expected.iter().enumerate() {
        match &mp.network.events[i] {
            NetworkEvent::Response { peer_id, request_id, response } => {
                assert_eq!(*peer_id, 7);
                assert_eq!(*request_id, 1);
                match response {
                    RPCResponse::BlocksByRange(Some(bytes)) => assert_eq!(bytes, exp),
                    _ => panic!("expected a block frame"),
                }
            },
            _ => panic!("expected a response event"),
        }
    }
    match &mp.network.events[3] {
        NetworkEvent::Response { response: RPCResponse::BlocksByRange(None), .. } => {},
        _ => panic!("expected the stream terminator"),
    }
}

#[test]
fn blocks_by_root_serves_known_roots_only() {
    let (chain, blocks) = chain_with_blocks_at(&[4, 6]);
    let known_root = blocks[1].canonical_root();
    let mut mp = MessageProcessor::new(chain);
    let request = BlocksByRootRequest {
        block_roots: vec![Hash256::from_low_u64(99), known_root],
    };
    mp.on_blocks_by_root_request(3, 8, request);
    assert_eq!(mp.network.events.len(), 2);
    match &mp.network.events[0] {
        NetworkEvent::Response { response: RPCResponse::BlocksByRoot(Some(bytes)), .. } => {
            assert_eq!(bytes, &beacon_core::beacon_codec::encode_beacon_block(&blocks[1]));
        },
        _ => panic!("expected the known block"),
    }
    match &mp.network.events[1] {
        NetworkEvent::Response { response: RPCResponse::BlocksByRoot(None), .. } => {},
        _ => panic!("expected the stream terminator"),
    }
}

#[test]
fn peer_on_a_different_fork_is_told_goodbye() {
    let mut chain = interop_chain_sync(8, 13371377);
    // Local fork version 1.
    chain.head_state.fork.current_version = 1;
    let mut mp = MessageProcessor::new(chain);
    let remote = StatusMessage {
        fork_version: 2,
        finalized_root: Hash256::zero(),
        finalized_epoch: 0,
        head_root: Hash256::from_low_u64(5),
        head_slot: 3,
    };
    mp.on_status_response(9, remote);
    assert_eq!(mp.network.events.len(), 1);
    match &mp.network.events[0] {
        NetworkEvent::Request { peer_id, request: RPCRequest::Goodbye(reason), .. } => {
            assert_eq!(*peer_id, 9);
            assert_eq!(*reason, GoodbyeReason::IrrelevantNetwork);
        },
        _ => panic!("expected a goodbye"),
    }
    // The peer is not handed to the sync manager.
    assert_eq!(mp.sync_queue.len(), 0);
}

#[test]
fn peer_on_our_fork_is_added() {
    let chain = interop_chain_sync(8, 13371377);
    let local = status_message(&chain);
    let mut mp = MessageProcessor::new(chain);
    let remote = StatusMessage {
        fork_version: local.fork_version,
        finalized_root: Hash256::zero(),
        finalized_epoch: 2,
        head_root: Hash256::from_low_u64(5),
        head_slot: 40,
    };
    mp.on_status_response(9, remote);
    assert_eq!(mp.network.events.len(), 0);
    assert_eq!(mp.sync_queue.len(), 1);
}

#[test]
fn find_head_breaks_ties_towards_greater_root() {
    let genesis = Hash256::from_low_u64(1);
    let mut tree = ReducedTree::new(genesis, 0);
    let aa = Hash256 {
        l0: 0xAAAAAAAAAAAAAAAA,
        l1: 0xAAAAAAAAAAAAAAAA,
        l2: 0xAAAAAAAAAAAAAAAA,
        l3: 0xAAAAAAAAAAAAAAAA,
    };
    let bb = Hash256 {
        l0: 0xBBBBBBBBBBBBBBBB,
        l1: 0xBBBBBBBBBBBBBBBB,
        l2: 0xBBBBBBBBBBBBBBBB,
        l3: 0xBBBBBBBBBBBBBBBB,
    };
    tree.process_block(1, aa, genesis).expect("parent is the root");
    tree.process_block(1, bb, genesis).expect("parent is the root");
    let balances = vec![32u64, 32u64];
    let head = tree.find_head(0, genesis, &balances).expect("the root is known");
    assert!(head.eq_root(&bb));
}

#[test]
fn votes_move_weight_and_the_head() {
    let genesis = Hash256::from_low_u64(1);
    let mut tree = ReducedTree::new(genesis, 0);
    let a = Hash256::from_low_u64(0xA);
    let b = Hash256::from_low_u64(0xB);
    tree.process_block(1, a, genesis).unwrap();
    tree.process_block(1, b, genesis).unwrap();
    let balances = vec![10u64, 10, 10];
    tree.process_attestation(0, a, 1).unwrap();
    tree.process_attestation(1, a, 1).unwrap();
    tree.process_attestation(2, b, 1).unwrap();
    let head = tree.find_head(0, genesis, &balances).expect("known root");
    assert!(head.eq_root(&a));
    // Weight conservation: the root subtree carries every vote.
    assert_eq!(tree.node_weight(0, &balances), 30);
    // A newer vote moves a validator; a stale one is ignored.
    tree.process_attestation(0, b, 2).unwrap();
    tree.process_attestation(1, b, 0).unwrap();
    let head2 = tree.find_head(0, genesis, &balances).expect("known root");
    assert!(head2.eq_root(&b));
    assert_eq!(tree.node_weight(0, &balances), 30);
}

#[test]
fn finalization_prunes_the_other_branch() {
    let genesis = Hash256::from_low_u64(1);
    let mut tree = ReducedTree::new(genesis, 0);
    let a = Hash256::from_low_u64(0xA);
    let b = Hash256::from_low_u64(0xB);
    let a2 = Hash256::from_low_u64(0xA2);
    tree.process_block(1, a, genesis).unwrap();
    tree.process_block(1, b, genesis).unwrap();
    tree.process_block(2, a2, a).unwrap();
    tree.process_attestation(0, b, 1).unwrap();
    tree.update_finalized_root(1, a).expect("the finalized block is known");
    assert!(tree.nodes[0].root.eq_root(&a));
    assert_eq!(tree.nodes.len(), 2);
    // The dangling vote was retargeted to the finalized block.
    let balances = vec![10u64];
    assert_eq!(tree.node_weight(0, &balances), 10);
}

#[test]
fn shard_slot_processing_advances_the_slot() {
    let spec = ChainSpec::minimal();
    let mut state = ShardState { shard: 3, slot: 41 };
    per_shard_slot_processing(&mut state, &spec).expect("no overflow");
    assert_eq!(state.slot, 42);
    assert_eq!(state.shard, 3);
}

#[test]
fn period_committee_cache_needs_a_period_boundary() {
    let spec = ChainSpec::minimal();
    let keys = generate_deterministic_keypairs(8);
    let mut state = beacon_core::genesis::interop_genesis_state(&keys, 13371377, &spec);
    // Epoch 0 opens a shard period.
    let cache = PeriodCommitteeCache::initialize(&state, &spec, 0).expect("period boundary");
    assert_eq!(cache.committees.len(), spec.shard_count as usize);
    for (i, committee) in cache.committees.iter().enumerate() {
        assert_eq!(committee.shard, i as u64);
        assert_eq!(committee.period, 0);
        assert_eq!(
            committee.committee,
            (0..spec.target_period_committee_size).collect::<Vec<u64>>()
        );
    }
    // Epoch 1 does not.
    state.slot = spec.slots_per_epoch;
    assert!(PeriodCommitteeCache::initialize(&state, &spec, 0).is_err());
}

#[test]
fn genesis_deposits_carry_index_and_proof() {
    let spec = ChainSpec::minimal();
    let data: Vec<DepositData> = (0..3u64)
        .map(|i| DepositData {
            pubkey: PublicKey { id: i + 1 },
            withdrawal_credentials: Hash256::zero(),
            amount: spec.max_effective_balance,
            signature: Signature::empty_signature(),
        })
        .collect();
    let deposits = genesis_deposits(data.clone(), &spec).expect("the tree holds three leaves");
    assert_eq!(deposits.len(), 3);
    for (i, deposit) in deposits.iter().enumerate() {
        assert_eq!(deposit.index, i as u64);
        assert_eq!(deposit.data, data[i]);
        assert_eq!(
            deposit.proof.len() as u64,
            spec.deposit_contract_tree_depth + 1
        );
        // The extra leaf encodes the 1-based deposit count.
        let expected = Hash256::read_bytes(&int_to_bytes32(i as u64 + 1), 0);
        assert!(deposit.proof[deposit.proof.len() - 1].eq_root(&expected));
    }
}

#[test]
fn slot_clock_maps_time_to_slots() {
    let clock = SlotClock::new(0, 13371377000, 6000);
    assert_eq!(clock.slot_at(13371376999), None);
    assert_eq!(clock.slot_at(13371377000), Some(0));
    assert_eq!(clock.slot_at(13371377000 + 6000 * 5 + 1), Some(5));
    assert_eq!(clock.duration_to_next_slot_ms(13371377000), Some(6000));
    assert_eq!(clock.duration_to_next_slot_ms(13371377001), Some(5999));
}

#[test]
fn gossip_forwarding_respects_the_future_slot_tolerance() {
    let chain = interop_chain_sync(8, 13371377);
    let mut mp = MessageProcessor::new(chain);
    // Present slot is 0; a block at slot 1 is within tolerance.
    let near = block_at(&mp.chain, 1);
    assert!(mp.on_block_gossip(4, near));
    // A block at slot 2 is beyond it.
    let far = block_at(&mp.chain, 2);
    assert!(!mp.on_block_gossip(4, far));
}

#[test]
fn status_message_reflects_the_head() {
    let chain = interop_chain_sync(8, 13371377);
    let status = status_message(&chain);
    assert_eq!(status.head_slot, 0);
    assert_eq!(status.finalized_epoch, 0);
    assert!(status.head_root.eq_root(&chain.head_root()));
}
