//! Genesis construction: the deterministic interop state used by local
//! testnets, and the deposit list with Merkle proofs that seeds a chain
//! from deposit data.

use vstd::prelude::*;
use crate::chain_spec::ChainSpec;
use crate::digest::{hash_of_bytes, spec_hash_of_bytes};
use crate::hash256::Hash256;
use crate::state::BeaconState;
use crate::types::{BeaconBlockHeader, Deposit, DepositData, Eth1Data, Fork, PublicKey, Signature, Validator};

verus! {

/// The deterministic interop key set: validator `i` holds the key with id
/// `i + 1` (zero is reserved for the empty signature).
pub fn generate_deterministic_keypairs(validator_count: usize) -> (r: Vec<PublicKey>)
    requires
        validator_count < usize::MAX,
    ensures
        r@.len() == validator_count,
        forall|i: int| 0 <= i < validator_count ==> #[trigger] r@[i] == (PublicKey { id: (i + 1) as u64 }),
{
    let mut out: Vec<PublicKey> = Vec::new();
    let mut i: usize = 0;
    while i < validator_count
        invariant
            i <= validator_count,
            validator_count < usize::MAX,
            out@.len() == i,
            forall|j: int| 0 <= j < i ==> #[trigger] out@[j] == (PublicKey { id: (j + 1) as u64 }),
        decreases validator_count - i,
    {
        out.push(PublicKey { id: (i as u64) + 1 });
        i = i + 1;
    }
    out
}

/// The deterministic interop genesis state: every keypair becomes an
/// active validator at full effective balance, and the clock starts at
/// `genesis_time`.
#[verifier::loop_isolation(false)]
pub fn interop_genesis_state(
    keypairs: &Vec<PublicKey>,
    genesis_time: u64,
    spec: &ChainSpec,
) -> (r: BeaconState)
    requires
        spec.wf(),
    ensures
        r@.wf(*spec),
        r@.slot == spec.genesis_slot,
        r@.genesis_time == genesis_time,
        r@.fork == (Fork { previous_version: 0, current_version: 0, epoch: 0 }),
        r@.validator_registry.len() == keypairs@.len(),
        r@.balances.len() == keypairs@.len(),
        forall|i: int|
            0 <= i < keypairs@.len() ==> #[trigger] r@.validator_registry[i] == (Validator {
                pubkey: keypairs@[i],
                withdrawal_credentials: Hash256::spec_zero(),
                activation_eligibility_epoch: 0,
                activation_epoch: 0,
                exit_epoch: spec.far_future_epoch,
                withdrawable_epoch: spec.far_future_epoch,
                effective_balance: spec.max_effective_balance,
                slashed: false,
            }),
        forall|i: int|
            0 <= i < keypairs@.len() ==> #[trigger] r@.balances[i] == spec.max_effective_balance,
        r@.latest_block_header == (BeaconBlockHeader {
            slot: spec.genesis_slot,
            previous_block_root: Hash256::spec_zero(),
            state_root: Hash256::spec_zero(),
            body_root: Hash256::spec_zero(),
            signature: Signature { msg_root: Hash256::spec_zero(), domain: 0, signer: 0 },
        }),
        r@.latest_randao_mixes.len() == spec.latest_randao_mixes_length,
        forall|i: int|
            0 <= i < r@.latest_randao_mixes.len() ==> #[trigger] r@.latest_randao_mixes[i]
                == Hash256::spec_zero(),
        r@.latest_eth1_data == (Eth1Data {
            deposit_root: Hash256::spec_zero(),
            deposit_count: 0,
            block_hash: Hash256::spec_zero(),
        }),
        r@.eth1_data_votes.len() == 0,
        r@.deposit_index == 0,
        r@.current_epoch_attestations.len() == 0,
        r@.previous_epoch_attestations.len() == 0,
        r@.previous_justified_epoch == 0,
        r@.previous_justified_root == Hash256::spec_zero(),
        r@.current_justified_epoch == 0,
        r@.current_justified_root == Hash256::spec_zero(),
        r@.justification_bitfield == 0,
        r@.finalized_epoch == 0,
        r@.finalized_root == Hash256::spec_zero(),
{
    let n = keypairs.len();
    let mut validators: Vec<Validator> = Vec::new();
    let mut balances: Vec<u64> = Vec::new();
    let mut i: usize = 0;
    while i < n
        invariant
            i <= n,
            validators@.len() == i,
            balances@.len() == i,
            forall|j: int|
                0 <= j < i ==> #[trigger] validators@[j] == (Validator {
                    pubkey: keypairs@[j],
                    withdrawal_credentials: Hash256::spec_zero(),
                    activation_eligibility_epoch: 0,
                    activation_epoch: 0,
                    exit_epoch: spec.far_future_epoch,
                    withdrawable_epoch: spec.far_future_epoch,
                    effective_balance: spec.max_effective_balance,
                    slashed: false,
                }),
            forall|j: int| 0 <= j < i ==> #[trigger] balances@[j] == spec.max_effective_balance,
        decreases n - i,
    {
        validators.push(
            Validator {
                pubkey: keypairs[i],
                withdrawal_credentials: Hash256::zero(),
                activation_eligibility_epoch: 0,
                activation_epoch: 0,
                exit_epoch: spec.far_future_epoch,
                withdrawable_epoch: spec.far_future_epoch,
                effective_balance: spec.max_effective_balance,
                slashed: false,
            },
        );
        balances.push(spec.max_effective_balance);
        i = i + 1;
    }
    let mut mixes: Vec<Hash256> = Vec::new();
    let mut k: u64 = 0;
    while k < spec.latest_randao_mixes_length
        invariant
            k <= spec.latest_randao_mixes_length,
            mixes@.len() == k,
            forall|j: int| 0 <= j < k ==> #[trigger] mixes@[j] == Hash256::spec_zero(),
        decreases spec.latest_randao_mixes_length - k,
    {
        mixes.push(Hash256::zero());
        k = k + 1;
    }
    BeaconState {
        slot: spec.genesis_slot,
        genesis_time,
        fork: Fork::genesis(),
        validator_registry: validators,
        balances,
        latest_block_header: BeaconBlockHeader {
            slot: spec.genesis_slot,
            previous_block_root: Hash256::zero(),
            state_root: Hash256::zero(),
            body_root: Hash256::zero(),
            signature: Signature::empty_signature(),
        },
        latest_randao_mixes: mixes,
        latest_eth1_data: Eth1Data {
            deposit_root: Hash256::zero(),
            deposit_count: 0,
            block_hash: Hash256::zero(),
        },
        eth1_data_votes: Vec::new(),
        deposit_index: 0,
        current_epoch_attestations: Vec::new(),
        previous_epoch_attestations: Vec::new(),
        previous_justified_epoch: 0,
        previous_justified_root: Hash256::zero(),
        current_justified_epoch: 0,
        current_justified_root: Hash256::zero(),
        justification_bitfield: 0,
        finalized_epoch: 0,
        finalized_root: Hash256::zero(),
    }
}

/// `int` as 32 little-endian bytes: the deposit tree's length leaf.
pub open spec fn spec_int_to_bytes32(x: u64) -> Seq<u8> {
    vstd::bytes::spec_u64_to_le_bytes(x) + Seq::new(24, |i: int| 0u8)
}

pub fn int_to_bytes32(x: u64) -> (r: Vec<u8>)
    ensures
        r@ == spec_int_to_bytes32(x),
        r@.len() == 32,
{
    let mut out = vstd::bytes::u64_to_le_bytes(x);
    let mut i: usize = 0;
    while i < 24
        invariant
            out@.len() == 8 + i,
            i <= 24,
            out@ == vstd::bytes::spec_u64_to_le_bytes(x) + Seq::new(i as nat, |j: int| 0u8),
        decreases 24 - i,
    {
        proof {
            assert(vstd::bytes::spec_u64_to_le_bytes(x) + Seq::new((i + 1) as nat, |j: int| 0u8)
                =~= (vstd::bytes::spec_u64_to_le_bytes(x) + Seq::new(i as nat, |j: int| 0u8)).push(
                0u8,
            ));
        }
        out.push(0);
        i = i + 1;
    }
    proof {
        vstd::bytes::lemma_auto_spec_u64_to_from_le_bytes();
        assert(out@ =~= spec_int_to_bytes32(x));
    }
    out
}

/// The root of the all-zero subtree of the given height.
pub open spec fn spec_zero_subtree(level: nat) -> Hash256
    decreases level,
{
    if level == 0 {
        Hash256::spec_zero()
    } else {
        spec_hash_of_bytes(
            spec_zero_subtree((level - 1) as nat).spec_bytes() + spec_zero_subtree(
                (level - 1) as nat,
            ).spec_bytes(),
        )
    }
}

/// The root of the subtree of height `level` whose leaves are
/// `leaves[index * 2^level ..]`, zero-padded past the end of `leaves`.
pub open spec fn spec_subtree(leaves: Seq<Hash256>, level: nat, index: nat) -> Hash256
    decreases level,
{
    if level == 0 {
        if index < leaves.len() {
            leaves[index as int]
        } else {
            Hash256::spec_zero()
        }
    } else {
        spec_hash_of_bytes(
            spec_subtree(leaves, (level - 1) as nat, 2 * index).spec_bytes() + spec_subtree(
                leaves,
                (level - 1) as nat,
                2 * index + 1,
            ).spec_bytes(),
        )
    }
}

/// The Merkle branch for the leaf at `index`: the sibling subtree root at
/// each level from the bottom to `depth`.
pub open spec fn spec_branch_from(
    leaves: Seq<Hash256>,
    level: nat,
    index: nat,
    depth: nat,
) -> Seq<Hash256>
    decreases (if level <= depth { depth - level } else { 0 }),
{
    if level >= depth {
        Seq::empty()
    } else {
        let sibling = if index % 2 == 0 {
            index + 1
        } else {
            (index - 1) as nat
        };
        seq![spec_subtree(leaves, level, sibling)] + spec_branch_from(
            leaves,
            level + 1,
            index / 2,
            depth,
        )
    }
}

/// The deposit-tree leaves of the first `upto` deposit data records.
pub open spec fn spec_leaves(data: Seq<DepositData>, upto: nat) -> Seq<Hash256> {
    Seq::new(upto, |k: int| crate::beacon_codec::spec_deposit_data_root(data[k]))
}

/// How many leaves a deposit tree of this depth holds, saturating.
pub open spec fn spec_tree_cap(depth: nat) -> u64
    decreases depth,
{
    if depth == 0 {
        1
    } else {
        crate::transition::sat_add(
            spec_tree_cap((depth - 1) as nat),
            spec_tree_cap((depth - 1) as nat),
        )
    }
}

/// The index left after halving `index` once per level.
pub open spec fn spec_top_index(index: nat, levels: nat) -> nat
    decreases levels,
{
    if levels == 0 {
        index
    } else {
        spec_top_index(index / 2, (levels - 1) as nat)
    }
}

/// A leaf index inside the tree's capacity halves down to the root.
proof fn lemma_top_index_zero(index: nat, depth: nat)
    requires
        depth <= 32,
        index < spec_tree_cap(depth),
    ensures
        spec_tree_cap(depth) >= 1,
        spec_top_index(index, depth) == 0,
    decreases depth,
{
    if depth == 0 {
    } else {
        lemma_cap_unsaturated(depth);
        lemma_cap_unsaturated((depth - 1) as nat);
        vstd::arithmetic::power2::lemma_pow2_unfold(depth);
        assert(index / 2 < spec_tree_cap((depth - 1) as nat));
        lemma_top_index_zero(index / 2, (depth - 1) as nat);
    }
}

/// Up to depth 32 the capacity never saturates: it is the exact power of
/// two, so one halving lands inside the next level down.
proof fn lemma_cap_unsaturated(depth: nat)
    requires
        depth <= 32,
    ensures
        spec_tree_cap(depth) as nat == vstd::arithmetic::power2::pow2(depth),
        1 <= spec_tree_cap(depth),
        spec_tree_cap(depth) <= 0x100000000u64,
    decreases depth,
{
    vstd::arithmetic::power2::lemma2_to64();
    if depth == 0 {
        assert(vstd::arithmetic::power2::pow2(0) == 1) by {
            vstd::arithmetic::power2::lemma_pow2_unfold(1);
        }
    } else {
        lemma_cap_unsaturated((depth - 1) as nat);
        vstd::arithmetic::power2::lemma_pow2_unfold(depth);
        if depth < 32 {
            vstd::arithmetic::power2::lemma_pow2_strictly_increases(depth, 32);
        }
    }
}

/// Folding a branch upwards from a subtree root reaches the tree root.
proof fn lemma_branch_folds(leaves: Seq<Hash256>, level: nat, index: u64, depth: nat)
    requires
        level <= depth,
    ensures
        crate::transition::spec_merkle_root_from_branch(
            spec_subtree(leaves, level, index as nat),
            spec_branch_from(leaves, level, index as nat, depth),
            index,
        ) == spec_subtree(leaves, depth, spec_top_index(index as nat, (depth - level) as nat)),
    decreases (if level <= depth { depth - level } else { 0 }),
{
    if level < depth {
        let branch = spec_branch_from(leaves, level, index as nat, depth);
        let sibling: nat = if index % 2 == 0 {
            index as nat + 1
        } else {
            (index - 1) as nat
        };
        assert(branch.drop_first() =~= spec_branch_from(leaves, level + 1, index as nat / 2, depth));
        assert(branch.first() == spec_subtree(leaves, level, sibling));
        if index % 2 == 0 {
            assert(2 * ((index as nat) / 2) == index as nat);
        } else {
            assert(2 * ((index as nat) / 2) + 1 == index as nat);
        }
        lemma_branch_folds(leaves, level + 1, index / 2, depth);
        assert((index / 2) as nat == (index as nat) / 2);
    }
}

/// The all-zero subtree roots of each height up to `depth`.
fn zero_hashes(depth: usize) -> (r: Vec<Hash256>)
    requires
        depth <= 64,
    ensures
        r@.len() == depth + 1,
        forall|l: int| 0 <= l < r@.len() ==> #[trigger] r@[l] == spec_zero_subtree(l as nat),
{
    let mut out: Vec<Hash256> = Vec::new();
    out.push(Hash256::zero());
    let mut level: usize = 0;
    while level < depth
        invariant
            depth <= 64,
            level <= depth,
            out@.len() == level + 1,
            forall|l: int| 0 <= l < out@.len() ==> #[trigger] out@[l] == spec_zero_subtree(l as nat),
        decreases depth - level,
    {
        let prev = out[level];
        let mut bytes: Vec<u8> = Vec::new();
        prev.push_bytes(&mut bytes);
        prev.push_bytes(&mut bytes);
        proof {
            assert(bytes@ =~= spec_zero_subtree(level as nat).spec_bytes() + spec_zero_subtree(
                level as nat,
            ).spec_bytes());
        }
        out.push(hash_of_bytes(&bytes));
        level = level + 1;
    }
    out
}

/// The interior layers of the sparse deposit tree over exactly these
/// leaves: layer `l` holds the subtree roots of height `l`, and every
/// subtree past a layer's end is the zero subtree.
#[verifier::loop_isolation(false)]
fn build_layers(leaves: &Vec<Hash256>, zeros: &Vec<Hash256>, depth: usize) -> (r: Vec<
    Vec<Hash256>,
>)
    requires
        depth + 1 == zeros@.len(),
        forall|l: int| 0 <= l < zeros@.len() ==> #[trigger] zeros@[l] == spec_zero_subtree(l as nat),
    ensures
        r@.len() == depth + 1,
        forall|l: int, idx: int|
            0 <= l < r@.len() && 0 <= idx < r@[l]@.len() ==> #[trigger] r@[l]@[idx] == spec_subtree(
                leaves@,
                l as nat,
                idx as nat,
            ),
        forall|l: int, idx: int|
            0 <= l < r@.len() && idx >= r@[l]@.len() ==> #[trigger] spec_subtree(
                leaves@,
                l as nat,
                idx as nat,
            ) == spec_zero_subtree(l as nat),
{
    let mut layers: Vec<Vec<Hash256>> = Vec::new();
    let mut current = crate::store::copy_vec(leaves);
    let mut level: usize = 0;
    while level < depth
        invariant
            layers@.len() == level,
            level <= depth,
            forall|idx: int|
                0 <= idx < current@.len() ==> #[trigger] current@[idx] == spec_subtree(
                    leaves@,
                    level as nat,
                    idx as nat,
                ),
            forall|idx: int|
                idx >= current@.len() && idx >= 0 ==> #[trigger] spec_subtree(
                    leaves@,
                    level as nat,
                    idx as nat,
                ) == spec_zero_subtree(level as nat),
            forall|l: int, idx: int|
                0 <= l < level && 0 <= idx < layers@[l]@.len() ==> #[trigger] layers@[l]@[idx]
                    == spec_subtree(leaves@, l as nat, idx as nat),
            forall|l: int, idx: int|
                0 <= l < level && idx >= layers@[l]@.len() ==> #[trigger] spec_subtree(
                    leaves@,
                    l as nat,
                    idx as nat,
                ) == spec_zero_subtree(l as nat),
        decreases depth - level,
    {
        let mut next: Vec<Hash256> = Vec::new();
        let pairs = current.len() / 2 + current.len() % 2;
        let mut k: usize = 0;
        while k < pairs
            invariant
                pairs == current@.len() / 2 + current@.len() % 2,
                k <= pairs,
                next@.len() == k,
                forall|idx: int|
                    0 <= idx < next@.len() ==> #[trigger] next@[idx] == spec_subtree(
                        leaves@,
                        (level + 1) as nat,
                        idx as nat,
                    ),
            decreases pairs - k,
        {
            proof {
                assert(2 * k < current@.len());
            }
            let left = current[2 * k];
            let right = if 2 * k + 1 < current.len() {
                current[2 * k + 1]
            } else {
                zeros[level]
            };
            let mut bytes: Vec<u8> = Vec::new();
            left.push_bytes(&mut bytes);
            right.push_bytes(&mut bytes);
            proof {
                assert(bytes@ =~= spec_subtree(leaves@, level as nat, 2 * k as nat).spec_bytes()
                    + spec_subtree(leaves@, level as nat, 2 * k as nat + 1).spec_bytes());
            }
            next.push(hash_of_bytes(&bytes));
            k = k + 1;
        }
        proof {
            assert forall|idx: int|
                idx >= next@.len() && idx >= 0 implies #[trigger] spec_subtree(
                leaves@,
                (level + 1) as nat,
                idx as nat,
            ) == spec_zero_subtree((level + 1) as nat) by {
                assert(2 * idx >= current@.len());
                assert(2 * idx + 1 >= current@.len());
                assert(spec_subtree(leaves@, level as nat, (2 * idx) as nat)
                    == spec_zero_subtree(level as nat));
                assert(spec_subtree(leaves@, level as nat, (2 * idx + 1) as nat)
                    == spec_zero_subtree(level as nat));
            }
        }
        layers.push(current);
        current = next;
        level = level + 1;
    }
    layers.push(current);
    layers
}

/// Builds the genesis `Deposit` list.  Each deposit `i` carries its index,
/// its data, and a branch of `deposit_contract_tree_depth + 1` nodes: the
/// Merkle branch proving its data root at index `i` in the tree of the
/// first `i + 1` leaves, with the 1-based deposit count appended as the
/// final length leaf.  `Err(TreeFull)` exactly when the list outgrows the
/// tree.
#[verifier::loop_isolation(false)]
#[verifier::rlimit(100)]
pub fn genesis_deposits(deposit_data: Vec<DepositData>, spec: &ChainSpec) -> (r: Result<
    Vec<Deposit>,
    CommonError,
>)
    requires
        spec.wf(),
    ensures
        r is Err <==> deposit_data@.len() > spec_tree_cap(spec.deposit_contract_tree_depth as nat),
        ({
            match r {
                Ok(deposits) => {
                    let depth = spec.deposit_contract_tree_depth as nat;
                    &&& deposits@.len() == deposit_data@.len()
                    &&& forall|i: int|
                        0 <= i < deposits@.len() ==> #[trigger] deposits@[i]@.data
                            == deposit_data@[i]
                    &&& forall|i: int|
                        0 <= i < deposits@.len() ==> #[trigger] deposits@[i]@.index == i
                    &&& forall|i: int|
                        0 <= i < deposits@.len() ==> (#[trigger] deposits@[i]@.proof).len()
                            == depth + 1
                    &&& forall|i: int|
                        0 <= i < deposits@.len() ==> #[trigger] deposits@[i]@.proof[depth as int]
                            == Hash256::spec_from_bytes(spec_int_to_bytes32((i + 1) as u64))
                    &&& forall|i: int|
                        0 <= i < deposits@.len() ==> #[trigger] deposits@[i]@.proof.take(
                            depth as int,
                        ) == spec_branch_from(
                            spec_leaves(deposit_data@, (i + 1) as nat),
                            0,
                            i as nat,
                            depth,
                        )
                    &&& forall|i: int|
                        0 <= i < deposits@.len() ==> crate::transition::spec_merkle_root_from_branch(
                            crate::beacon_codec::spec_deposit_data_root(deposit_data@[i]),
                            (#[trigger] deposits@[i]@.proof).take(depth as int),
                            i as u64,
                        ) == spec_subtree(spec_leaves(deposit_data@, (i + 1) as nat), depth, 0)
                },
                Err(e) => e == CommonError::TreeFull,
            }
        }),
{
    let depth = spec.deposit_contract_tree_depth as usize;
    proof {
        assert(depth == spec.deposit_contract_tree_depth);
    }
    let mut cap: u64 = 1;
    let mut d: usize = 0;
    while d < depth
        invariant
            d <= depth,
            cap == spec_tree_cap(d as nat),
        decreases depth - d,
    {
        cap = crate::transition::exec_sat_add(cap, cap);
        d = d + 1;
    }
    if deposit_data.len() as u64 > cap {
        return Err(CommonError::TreeFull);
    }
    let n = deposit_data.len();
    let mut leaves: Vec<Hash256> = Vec::new();
    let mut i: usize = 0;
    while i < n
        invariant
            i <= n,
            leaves@.len() == i,
            leaves@ == spec_leaves(
                Seq::new(deposit_data@.len(), |k: int| deposit_data@[k]),
                i as nat,
            ),
            forall|k: int|
                0 <= k < i ==> #[trigger] leaves@[k]
                    == crate::beacon_codec::spec_deposit_data_root(deposit_data@[k]),
        decreases n - i,
    {
        leaves.push(crate::beacon_codec::deposit_data_root(&deposit_data[i]));
        proof {
            assert(leaves@ =~= spec_leaves(
                Seq::new(deposit_data@.len(), |k: int| deposit_data@[k]),
                (i + 1) as nat,
            ));
        }
        i = i + 1;
    }
    let zeros = zero_hashes(depth);
    let mut deposits: Vec<Deposit> = Vec::new();
    let mut prefix: Vec<Hash256> = Vec::new();
    let mut i: usize = 0;
    while i < n
        invariant
            i <= n,
            n == deposit_data@.len(),
            n as u64 <= cap,
            cap == spec_tree_cap(depth as nat),
            leaves@.len() == n,
            forall|k: int|
                0 <= k < n ==> #[trigger] leaves@[k]
                    == crate::beacon_codec::spec_deposit_data_root(deposit_data@[k]),
            zeros@.len() == depth + 1,
            forall|l: int|
                0 <= l < zeros@.len() ==> #[trigger] zeros@[l] == spec_zero_subtree(l as nat),
            depth == spec.deposit_contract_tree_depth,
            prefix@.len() == i,
            prefix@ == spec_leaves(deposit_data@, i as nat),
            deposits@.len() == i,
            forall|j: int|
                0 <= j < i ==> #[trigger] deposits@[j]@.data == deposit_data@[j],
            forall|j: int| 0 <= j < i ==> #[trigger] deposits@[j]@.index == j,
            forall|j: int| 0 <= j < i ==> (#[trigger] deposits@[j]@.proof).len() == depth + 1,
            forall|j: int|
                0 <= j < i ==> #[trigger] deposits@[j]@.proof[depth as int]
                    == Hash256::spec_from_bytes(spec_int_to_bytes32((j + 1) as u64)),
            forall|j: int|
                0 <= j < i ==> #[trigger] deposits@[j]@.proof.take(depth as int)
                    == spec_branch_from(
                    spec_leaves(deposit_data@, (j + 1) as nat),
                    0,
                    j as nat,
                    depth as nat,
                ),
        decreases n - i,
    {
        prefix.push(leaves[i]);
        proof {
            assert(prefix@ =~= spec_leaves(deposit_data@, (i + 1) as nat));
        }
        let layers = build_layers(&prefix, &zeros, depth);
        let mut proof_vec: Vec<Hash256> = Vec::new();
        let mut level: usize = 0;
        let mut idx: u64 = i as u64;
        proof {
            assert(spec_branch_from(prefix@, 0, i as nat, depth as nat) == proof_vec@
                + spec_branch_from(prefix@, 0, i as nat, depth as nat));
            assert(proof_vec@ + spec_branch_from(prefix@, 0, i as nat, depth as nat)
                =~= spec_branch_from(prefix@, 0, i as nat, depth as nat));
        }
        while level < depth
            invariant
                level <= depth,
                prefix@ == spec_leaves(deposit_data@, (i + 1) as nat),
                zeros@.len() == depth + 1,
                forall|l: int|
                    0 <= l < zeros@.len() ==> #[trigger] zeros@[l] == spec_zero_subtree(l as nat),
                layers@.len() == depth + 1,
                forall|l: int, idx2: int|
                    0 <= l < layers@.len() && 0 <= idx2 < layers@[l]@.len()
                        ==> #[trigger] layers@[l]@[idx2] == spec_subtree(
                        prefix@,
                        l as nat,
                        idx2 as nat,
                    ),
                forall|l: int, idx2: int|
                    0 <= l < layers@.len() && idx2 >= layers@[l]@.len() ==> #[trigger] spec_subtree(
                        prefix@,
                        l as nat,
                        idx2 as nat,
                    ) == spec_zero_subtree(l as nat),
                proof_vec@.len() == level,
                spec_branch_from(prefix@, 0, i as nat, depth as nat) == proof_vec@
                    + spec_branch_from(prefix@, level as nat, idx as nat, depth as nat),
            decreases depth - level,
        {
            let sibling_index: u64 = if idx % 2 == 0 {
                idx + 1
            } else {
                idx - 1
            };
            proof {
                assert(spec_branch_from(prefix@, level as nat, idx as nat, depth as nat)
                    == seq![
                    spec_subtree(
                        prefix@,
                        level as nat,
                        (if idx as nat % 2 == 0 {
                            idx as nat + 1
                        } else {
                            (idx as nat - 1) as nat
                        }),
                    ),
                ] + spec_branch_from(prefix@, (level + 1) as nat, idx as nat / 2, depth as nat));
            }
            let layer = &layers[level];
            let sibling = if sibling_index < layer.len() as u64 {
                layer[sibling_index as usize]
            } else {
                zeros[level]
            };
            proof {
                assert(sibling == spec_subtree(prefix@, level as nat, sibling_index as nat));
                assert(proof_vec@.push(sibling) + spec_branch_from(
                    prefix@,
                    (level + 1) as nat,
                    (idx / 2) as nat,
                    depth as nat,
                ) =~= proof_vec@ + (seq![sibling] + spec_branch_from(
                    prefix@,
                    (level + 1) as nat,
                    (idx / 2) as nat,
                    depth as nat,
                )));
            }
            proof_vec.push(sibling);
            idx = idx / 2;
            level = level + 1;
        }
        proof {
            assert(spec_branch_from(prefix@, depth as nat, idx as nat, depth as nat)
                =~= Seq::<Hash256>::empty());
            assert(proof_vec@ + Seq::<Hash256>::empty() =~= proof_vec@);
            assert(proof_vec@ == spec_branch_from(prefix@, 0, i as nat, depth as nat));
        }
        let length_bytes = int_to_bytes32((i as u64) + 1);
        let length_leaf = Hash256::read_bytes(&length_bytes, 0);
        proof {
            assert(length_bytes@.subrange(0, 32) =~= spec_int_to_bytes32((i + 1) as u64));
        }
        let ghost branch = proof_vec@;
        proof_vec.push(length_leaf);
        proof {
            assert(proof_vec@.take(depth as int) =~= branch);
        }
        deposits.push(Deposit { proof: proof_vec, index: i as u64, data: deposit_data[i] });
        proof {
            assert(deposits@[i as int]@.data == deposit_data@[i as int]);
            assert(deposits@[i as int]@.index == i as int);
            assert(deposits@[i as int]@.proof.len() == depth + 1);
            assert(deposits@[i as int]@.proof[depth as int] == Hash256::spec_from_bytes(
                spec_int_to_bytes32((i + 1) as u64),
            ));
            assert(deposits@[i as int]@.proof.take(depth as int) == spec_branch_from(
                spec_leaves(deposit_data@, (i + 1) as nat),
                0,
                i as nat,
                depth as nat,
            ));
        }
        i = i + 1;
    }
    proof {
        assert forall|j: int|
            0 <= j < deposits@.len() implies crate::transition::spec_merkle_root_from_branch(
            crate::beacon_codec::spec_deposit_data_root(deposit_data@[j]),
            (#[trigger] deposits@[j]@.proof).take(depth as int),
            j as u64,
        ) == spec_subtree(
            spec_leaves(deposit_data@, (j + 1) as nat),
            depth as nat,
            0,
        ) by {
            let pj = spec_leaves(deposit_data@, (j + 1) as nat);
            assert(spec_subtree(pj, 0, j as nat) == crate::beacon_codec::spec_deposit_data_root(
                deposit_data@[j],
            ));
            lemma_branch_folds(pj, 0, j as u64, depth as nat);
            lemma_top_index_zero(j as nat, depth as nat);
            assert(j as u64 <= cap);
        }
    }
    Ok(deposits)
}

#[derive(Clone, Copy, PartialEq, Eq, Structural, Debug)]
pub enum CommonError {
    /// More deposits than the deposit tree can hold.
    TreeFull,
}

} // verus!
