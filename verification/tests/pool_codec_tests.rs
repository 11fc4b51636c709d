//! Attestation pool aggregation and pruning, and the shard block codec
//! round trip.

use beacon_core::chain_spec::ChainSpec;
use beacon_core::codec::{decode_shard_block, encode_shard_block};
use beacon_core::genesis::{generate_deterministic_keypairs, interop_genesis_state};
use beacon_core::hash256::Hash256;
use beacon_core::op_pool::OperationPool;
use beacon_core::shard_types::{ShardAttestation, ShardAttestationData, ShardBlock, ShardState};
use beacon_core::state::BeaconState;
use beacon_core::types::{AggregateSignature, Bitfield, Signature};

fn test_state(spec: &ChainSpec) -> BeaconState {
    let keys = generate_deterministic_keypairs(8);
    interop_genesis_state(&keys, 13371377, spec)
}

fn bitfield_from_byte(byte: u8) -> Bitfield {
    let mut bits = Bitfield::new(8);
    for i in 0..8usize {
        if (byte >> i) & 1 == 1 {
            bits.set(i);
        }
    }
    bits
}

fn attestation(byte: u8, data: ShardAttestationData) -> ShardAttestation {
    ShardAttestation {
        aggregation_bitfield: bitfield_from_byte(byte),
        data,
        signature: AggregateSignature::sign(Hash256::from_low_u64(9), 42),
    }
}

#[test]
fn disjoint_attestations_aggregate_into_one() {
    let spec = ChainSpec::minimal();
    let state = test_state(&spec);
    let data = ShardAttestationData {
        shard: 0,
        target_slot: 3,
        target_root: Hash256::from_low_u64(1),
    };
    let mut pool = OperationPool::new();
    pool.insert_attestation(attestation(0b00000001, data), &state, &spec);
    pool.insert_attestation(attestation(0b00000010, data), &state, &spec);
    assert_eq!(pool.num_attestations(), 1);
    let merged = &pool.buckets[0].atts[0];
    assert!(merged.aggregation_bitfield.get(0));
    assert!(merged.aggregation_bitfield.get(1));
    for i in 2..8usize {
        assert!(!merged.aggregation_bitfield.get(i));
    }
}

#[test]
fn identical_attestations_stay_single() {
    let spec = ChainSpec::minimal();
    let state = test_state(&spec);
    let data = ShardAttestationData {
        shard: 0,
        target_slot: 3,
        target_root: Hash256::from_low_u64(1),
    };
    let mut pool = OperationPool::new();
    pool.insert_attestation(attestation(0b00000101, data), &state, &spec);
    pool.insert_attestation(attestation(0b00000101, data), &state, &spec);
    assert_eq!(pool.num_attestations(), 1);
    let kept = &pool.buckets[0].atts[0];
    assert!(kept.aggregation_bitfield.get(0));
    assert!(!kept.aggregation_bitfield.get(1));
    assert!(kept.aggregation_bitfield.get(2));
}

#[test]
fn new_attestation_joins_exactly_one_disjoint_aggregate() {
    let spec = ChainSpec::minimal();
    let state = test_state(&spec);
    let data = ShardAttestationData {
        shard: 0,
        target_slot: 3,
        target_root: Hash256::from_low_u64(1),
    };
    let mut pool = OperationPool::new();
    // Two aggregates that overlap each other, so they stay separate...
    pool.insert_attestation(attestation(0b00000011, data), &state, &spec);
    pool.insert_attestation(attestation(0b00000101, data), &state, &spec);
    assert_eq!(pool.num_attestations(), 2);
    // ...and a third disjoint from both joins only the first.
    pool.insert_attestation(attestation(0b00001000, data), &state, &spec);
    assert_eq!(pool.num_attestations(), 2);
    let first = &pool.buckets[0].atts[0];
    assert!(first.aggregation_bitfield.get(0));
    assert!(first.aggregation_bitfield.get(1));
    assert!(first.aggregation_bitfield.get(3));
    let second = &pool.buckets[0].atts[1];
    assert!(second.aggregation_bitfield.get(0));
    assert!(second.aggregation_bitfield.get(2));
    assert!(!second.aggregation_bitfield.get(3));
}

#[test]
fn different_data_opens_a_second_bucket() {
    let spec = ChainSpec::minimal();
    let state = test_state(&spec);
    let data_a = ShardAttestationData {
        shard: 0,
        target_slot: 3,
        target_root: Hash256::from_low_u64(1),
    };
    let data_b = ShardAttestationData {
        shard: 1,
        target_slot: 3,
        target_root: Hash256::from_low_u64(1),
    };
    let mut pool = OperationPool::new();
    pool.insert_attestation(attestation(0b00000001, data_a), &state, &spec);
    pool.insert_attestation(attestation(0b00000001, data_b), &state, &spec);
    assert_eq!(pool.num_attestations(), 2);
}

#[test]
fn prune_drops_attestations_below_finalized_slot() {
    let spec = ChainSpec::minimal();
    let state = test_state(&spec);
    let old_data = ShardAttestationData {
        shard: 0,
        target_slot: 4,
        target_root: Hash256::from_low_u64(1),
    };
    let new_data = ShardAttestationData {
        shard: 0,
        target_slot: 12,
        target_root: Hash256::from_low_u64(2),
    };
    let mut pool = OperationPool::new();
    pool.insert_attestation(attestation(0b00000001, old_data), &state, &spec);
    pool.insert_attestation(attestation(0b00000001, new_data), &state, &spec);
    assert_eq!(pool.num_attestations(), 2);
    pool.prune_attestations(&ShardState { shard: 0, slot: 10 });
    assert_eq!(pool.num_attestations(), 1);
    assert_eq!(pool.buckets[0].atts[0].data.target_slot, 12);
    // Pruning at or below the remaining target keeps it.
    pool.prune_attestations(&ShardState { shard: 0, slot: 12 });
    assert_eq!(pool.num_attestations(), 1);
}

#[test]
fn pool_body_is_taken_once() {
    let mut pool = OperationPool::new();
    pool.insert_body(vec![1, 2, 3]);
    assert_eq!(pool.get_body(), vec![1, 2, 3]);
    assert_eq!(pool.get_body(), Vec::<u8>::new());
}

#[test]
fn get_attestation_returns_best_matching_aggregate() {
    let spec = ChainSpec::minimal();
    let state = test_state(&spec);
    // Attestations for target slot 6 are includable in a shard state at
    // slot 7.
    let data = ShardAttestationData {
        shard: 0,
        target_slot: 6,
        target_root: Hash256::from_low_u64(1),
    };
    let other = ShardAttestationData {
        shard: 0,
        target_slot: 5,
        target_root: Hash256::from_low_u64(1),
    };
    let mut pool = OperationPool::new();
    pool.insert_attestation(attestation(0b00000001, data), &state, &spec);
    pool.insert_attestation(attestation(0b01110000, other), &state, &spec);
    let shard_state = ShardState { shard: 0, slot: 7 };
    let picked = pool.get_attestation(&shard_state, &state, &spec);
    assert_eq!(picked.len(), 1);
    assert_eq!(picked[0].data.target_slot, 6);
}

fn sample_shard_block() -> ShardBlock {
    let data = ShardAttestationData {
        shard: 3,
        target_slot: 17,
        target_root: Hash256::from_low_u64(40),
    };
    ShardBlock {
        slot: 17,
        shard: 3,
        parent_root: Hash256::from_low_u64(10),
        beacon_block_root: Hash256::from_low_u64(11),
        state_root: Hash256::from_low_u64(12),
        body: vec![1, 2, 3, 4, 5],
        attestation: vec![
            ShardAttestation {
                aggregation_bitfield: bitfield_from_byte(0b00000110),
                data,
                signature: AggregateSignature::sign(Hash256::from_low_u64(13), 7),
            },
        ],
        signature: Signature::sign(Hash256::from_low_u64(14), 8, beacon_core::types::PublicKey {
            id: 2,
        }),
    }
}

#[test]
fn shard_block_codec_round_trips() {
    let block = sample_shard_block();
    let root_before = block.canonical_root();
    let bytes = encode_shard_block(&block);
    let decoded = decode_shard_block(&bytes).expect("decoding an encoding succeeds");
    assert_eq!(decoded.slot, block.slot);
    assert_eq!(decoded.shard, block.shard);
    assert!(decoded.parent_root.eq_root(&block.parent_root));
    assert!(decoded.beacon_block_root.eq_root(&block.beacon_block_root));
    assert!(decoded.state_root.eq_root(&block.state_root));
    assert_eq!(decoded.body, block.body);
    assert_eq!(decoded.attestation.len(), 1);
    assert_eq!(decoded.attestation[0].data, block.attestation[0].data);
    assert_eq!(decoded.signature, block.signature);
    // The canonical root survives serialization, deserialization and
    // re-serialization.
    let root_after = decoded.canonical_root();
    assert!(root_before.eq_root(&root_after));
    let bytes_again = encode_shard_block(&decoded);
    assert_eq!(bytes, bytes_again);
}

#[test]
fn shard_block_decode_rejects_truncation() {
    let block = sample_shard_block();
    let mut bytes = encode_shard_block(&block);
    bytes.pop();
    assert!(decode_shard_block(&bytes).is_none());
}

#[test]
fn shard_header_round_trip_preserves_root() {
    let block = sample_shard_block();
    let header = block.block_header();
    assert!(block.canonical_root().eq_root(&header.canonical_root()));
    let rebuilt = header.block();
    assert!(rebuilt.canonical_root().eq_root(&block.canonical_root()));
    let consumed = block.block_header().into_block();
    assert!(consumed.canonical_root().eq_root(&rebuilt.canonical_root()));
}

#[test]
fn empty_shard_block_has_fork_slot_and_zero_roots() {
    let spec = ChainSpec::minimal();
    let block = ShardBlock::empty(&spec, 4);
    assert_eq!(block.slot, spec.phase_1_fork_slot);
    assert_eq!(block.shard, 4);
    assert!(block.parent_root.is_zero());
    let header = beacon_core::shard_types::ShardBlockHeader::empty(&spec, 4);
    assert!(header.canonical_root().eq_root(&block.canonical_root()));
    let temp = block.temporary_block_header(&spec);
    assert!(temp.state_root.is_zero());
}

#[test]
fn hash256_bytes_round_trip() {
    let h = Hash256 { l0: 0x0102030405060708, l1: 9, l2: 10, l3: 11 };
    let bytes = h.to_bytes();
    assert_eq!(bytes.len(), 32);
    assert_eq!(bytes[0], 0x01);
    assert_eq!(bytes[7], 0x08);
    let back = Hash256::read_bytes(&bytes, 0);
    assert!(h.eq_root(&back));
}

#[test]
fn lexicographic_order_follows_big_endian_bytes() {
    let a = Hash256 { l0: 0xAAAAAAAAAAAAAAAA, l1: 0, l2: 0, l3: 0 };
    let b = Hash256 { l0: 0xBBBBBBBBBBBBBBBB, l1: 0, l2: 0, l3: 0 };
    assert!(b.lex_gt(&a));
    assert!(!a.lex_gt(&b));
    assert!(!a.lex_gt(&a));
}
