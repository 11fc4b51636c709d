//! The beacon chain: owns the store, the fork choice and the head, applies
//! blocks through the state transition, and serves the block walks the
//! peer protocol needs.  The head's finalized epoch never decreases.

use vstd::prelude::*;
use crate::beacon_codec::spec_block_signed_root;
use crate::chain_spec::ChainSpec;
use crate::epoch::{per_slot_processing, spec_per_slot};
use crate::fork_choice::{fc_wf, spec_find_node, ReducedTree};
use crate::hash256::Hash256;
use crate::state::{BeaconState, BeaconStateView};
use crate::store::{spec_lookup_block, spec_lookup_state, MemoryStore, MemoryStoreView};
use crate::transition::{
    per_block_processing, spec_per_block, st_pre, tx_pre, validate_attestation, BlockError,
    spec_valid_attestation,
};
use crate::types::{Attestation, BeaconBlock, BeaconBlockBody, BeaconBlockView, Signature};

verus! {

#[derive(Clone, Copy, PartialEq, Eq, Structural, Debug)]
pub enum BlockProcessingOutcome {
    /// The block was applied; the canonical root identifies it.
    Processed { block_root: Hash256 },
    /// The parent is not known; the block should go to the sync manager.
    ParentUnknown { parent: Hash256 },
    /// The block's slot is ahead of the clock; it may be queued.
    FutureSlot { present_slot: u64, block_slot: u64 },
    BlockIsAlreadyKnown,
    /// A block at or before the genesis slot, or carrying the reserved
    /// zero root; never processed.
    GenesisBlock,
    InvalidBlock { reason: BlockError },
}

#[derive(Clone, Copy, PartialEq, Eq, Structural, Debug)]
pub enum AttestationProcessingOutcome {
    Processed,
    Invalid,
}

pub struct BeaconChain {
    pub spec: ChainSpec,
    pub store: MemoryStore,
    pub fork_choice: ReducedTree,
    pub genesis_block_root: Hash256,
    pub head_block_root: Hash256,
    pub head_block: BeaconBlock,
    pub head_state: BeaconState,
    /// The wall-clock slot, fed in by the slot clock at the edge.
    pub present_slot: u64,
}

/// The chain invariant.  (The aggregating attestation pool serves shard
/// block production and lives beside the chain in its own module: the
/// chain's own attestations feed fork choice directly.)
pub open spec fn chain_wf(c: &BeaconChain) -> bool {
    &&& c.spec.wf()
    &&& st_pre(c.head_state@, c.spec)
    &&& fc_wf(c.fork_choice@)
    &&& spec_lookup_block(c.store@.blocks, c.head_block_root) == Some(c.head_block@)
    &&& spec_lookup_state(c.store@.states, c.head_block_root) == Some(c.head_state@)
    &&& spec_lookup_block(c.store@.blocks, c.genesis_block_root) is Some
    &&& store_keys_wf(c.store@, c.spec)
    &&& forall|i: int|
        0 <= i < c.fork_choice@.nodes.len() ==> #[trigger] spec_lookup_block(
            c.store@.blocks,
            c.fork_choice@.nodes[i].root,
        ) is Some && spec_lookup_state(c.store@.states, c.fork_choice@.nodes[i].root) is Some
}

/// What every stored entry obeys: blocks and states run in parallel under
/// equal keys and slots, no key is the reserved zero root, every stored
/// state is well formed, and a stored block's stored parent sits at a
/// strictly smaller slot — so walking parents terminates.
pub open spec fn store_keys_wf(s: MemoryStoreView, cs: ChainSpec) -> bool {
    &&& s.blocks.len() == s.states.len()
    &&& forall|i: int| 0 <= i < s.blocks.len() ==> #[trigger] s.blocks[i].0 == s.states[i].0
    &&& forall|i: int|
        0 <= i < s.blocks.len() ==> #[trigger] s.states[i].1.slot == s.blocks[i].1.slot
    &&& forall|i: int| 0 <= i < s.states.len() ==> st_pre(#[trigger] s.states[i].1, cs)
    &&& forall|i: int| 0 <= i < s.blocks.len() ==> #[trigger] s.blocks[i].0 != Hash256::spec_zero()
    &&& forall|i: int|
        0 <= i < s.blocks.len() ==> (spec_lookup_block(
            s.blocks,
            #[trigger] s.blocks[i].1.previous_block_root,
        ) is Some || s.blocks[i].1.previous_block_root == Hash256::spec_zero())
    &&& forall|i: int|
        0 <= i < s.blocks.len() ==> (match spec_lookup_block(
            s.blocks,
            #[trigger] s.blocks[i].1.previous_block_root,
        ) {
            Option::Some(p) => p.slot < s.blocks[i].1.slot,
            Option::None => true,
        })
}

/// The state reached by advancing `v` slot by slot to `target`.
pub open spec fn spec_advance(v: BeaconStateView, target: u64, cs: ChainSpec) -> BeaconStateView
    decreases (if v.slot < target { target - v.slot } else { 0 }),
{
    if v.slot >= target {
        v
    } else {
        spec_advance(spec_per_slot(v, cs), target, cs)
    }
}

/// The outcome of applying `block`, as a pure function of the chain: the
/// clock gate, the identity gates, the parent lookup, and the state
/// transition decide it completely.
pub open spec fn spec_block_outcome(
    c: &BeaconChain,
    block: BeaconBlockView,
) -> BlockProcessingOutcome
    recommends
        chain_wf(c),
{
    let root = spec_block_signed_root(block);
    if block.slot > c.present_slot {
        BlockProcessingOutcome::FutureSlot { present_slot: c.present_slot, block_slot: block.slot }
    } else if root == Hash256::spec_zero() || block.slot <= c.spec.genesis_slot {
        BlockProcessingOutcome::GenesisBlock
    } else if spec_lookup_block(c.store@.blocks, root) is Some {
        BlockProcessingOutcome::BlockIsAlreadyKnown
    } else {
        match spec_lookup_block(c.store@.blocks, block.previous_block_root) {
            Option::None => BlockProcessingOutcome::ParentUnknown {
                parent: block.previous_block_root,
            },
            Option::Some(pb) => {
                if block.slot <= pb.slot {
                    BlockProcessingOutcome::InvalidBlock { reason: BlockError::StateSlotMismatch }
                } else {
                    match spec_per_block(
                        spec_advance(
                            spec_lookup_state(c.store@.states, block.previous_block_root)->Some_0,
                            block.slot,
                            c.spec,
                        ),
                        block,
                        true,
                        c.spec,
                    ) {
                        Result::<BeaconStateView, BlockError>::Ok(post) => BlockProcessingOutcome::Processed {
                            block_root: root,
                        },
                        Result::<BeaconStateView, BlockError>::Err(e) => BlockProcessingOutcome::InvalidBlock {
                            reason: e,
                        },
                    }
                }
            },
        }
    }
}

/// The post-state a processed block stores.
pub open spec fn spec_block_post_state(c: &BeaconChain, block: BeaconBlockView) -> BeaconStateView
    recommends
        chain_wf(c),
{
    spec_per_block(
        spec_advance(
            spec_lookup_state(c.store@.states, block.previous_block_root)->Some_0,
            block.slot,
            c.spec,
        ),
        block,
        true,
        c.spec,
    )->Ok_0
}

/// The fork-choice node list after a processed block is handed to fork
/// choice: appended under its parent when the parent is in the tree, and
/// left alone when the parent was pruned below finalization.
pub open spec fn spec_tree_after_insert(
    old_nodes: Seq<crate::fork_choice::FcNode>,
    block: BeaconBlockView,
) -> Seq<crate::fork_choice::FcNode> {
    match spec_find_node(old_nodes, block.previous_block_root) {
        Option::Some(p) => old_nodes.push(
            crate::fork_choice::FcNode {
                root: spec_block_signed_root(block),
                slot: block.slot,
                parent: p as usize,
            },
        ),
        Option::None => old_nodes,
    }
}

/// The canonical `(root, slot)` walk down parent links from a stored
/// block: each step moves to the stored parent at a strictly smaller slot,
/// and the walk ends where no such parent is stored.
pub open spec fn spec_walk(
    blocks: Seq<(Hash256, BeaconBlockView)>,
    root: Hash256,
    slot: u64,
) -> Seq<(Hash256, u64)>
    decreases slot,
{
    let entry = (root, slot);
    match spec_lookup_block(blocks, root) {
        Option::None => seq![entry],
        Option::Some(b) => match spec_lookup_block(blocks, b.previous_block_root) {
            Option::None => seq![entry],
            Option::Some(p) => {
                if p.slot < slot {
                    seq![entry] + spec_walk(blocks, b.previous_block_root, p.slot)
                } else {
                    seq![entry]
                }
            },
        },
    }
}

/// The canonical walk from the chain's head.
pub open spec fn spec_head_walk(c: &BeaconChain) -> Seq<(Hash256, u64)> {
    spec_walk(c.store@.blocks, c.head_block_root, c.head_block@.slot)
}

/// The first walk entry at `slot`, if any.
pub open spec fn spec_root_at(walk: Seq<(Hash256, u64)>, slot: u64) -> Option<Hash256>
    decreases walk.len(),
{
    if walk.len() == 0 {
        None
    } else if walk[0].1 == slot {
        Some(walk[0].0)
    } else {
        spec_root_at(walk.drop_first(), slot)
    }
}

/// The empty block the chain is born with.
pub open spec fn spec_genesis_block(v: BeaconStateView, cs: ChainSpec) -> BeaconBlockView {
    BeaconBlockView {
        slot: cs.genesis_slot,
        previous_block_root: Hash256::spec_zero(),
        state_root: Hash256::spec_zero(),
        body: crate::types::BeaconBlockBodyView {
            randao_reveal: Signature { msg_root: Hash256::spec_zero(), domain: 0, signer: 0 },
            eth1_data: v.latest_eth1_data,
            proposer_slashings: Seq::empty(),
            attester_slashings: Seq::empty(),
            attestations: Seq::empty(),
            deposits: Seq::empty(),
            voluntary_exits: Seq::empty(),
            transfers: Seq::empty(),
        },
        signature: Signature { msg_root: Hash256::spec_zero(), domain: 0, signer: 0 },
    }
}

/// The root of the genesis block a state gives rise to.
pub open spec fn spec_genesis_root(v: BeaconStateView, cs: ChainSpec) -> Hash256 {
    spec_block_signed_root(spec_genesis_block(v, cs))
}

fn make_genesis_block(state: &BeaconState, spec: &ChainSpec) -> (r: BeaconBlock)
    ensures
        r@ == spec_genesis_block(state@, *spec),
{
    let r = BeaconBlock {
        slot: spec.genesis_slot,
        previous_block_root: Hash256::zero(),
        state_root: Hash256::zero(),
        body: BeaconBlockBody {
            randao_reveal: Signature::empty_signature(),
            eth1_data: state.latest_eth1_data,
            proposer_slashings: Vec::new(),
            attester_slashings: Vec::new(),
            attestations: Vec::new(),
            deposits: Vec::new(),
            voluntary_exits: Vec::new(),
            transfers: Vec::new(),
        },
        signature: Signature::empty_signature(),
    };
    proof {
        let g = spec_genesis_block(state@, *spec);
        assert(r@.body.proposer_slashings =~= g.body.proposer_slashings);
        assert(r@.body.attester_slashings =~= g.body.attester_slashings);
        assert(r@.body.attestations =~= g.body.attestations);
        assert(r@.body.deposits =~= g.body.deposits);
        assert(r@.body.voluntary_exits =~= g.body.voluntary_exits);
        assert(r@.body.transfers =~= g.body.transfers);
        assert(r@.body == g.body);
    }
    r
}

impl BeaconChain {
    /// Builds a chain from a genesis state: the genesis block is derived
    /// from the state, installed as the latest header, stored, and made the
    /// root of fork choice.  `None` exactly when the genesis root collides
    /// with the reserved zero root.
    pub fn from_genesis(genesis_state: BeaconState, spec: ChainSpec) -> (r: Option<BeaconChain>)
        requires
            spec.wf(),
            genesis_state@.wf(spec),
            genesis_state@.validator_registry.len() > 0,
            genesis_state@.slot == spec.genesis_slot,
        ensures
            r is None <==> spec_genesis_root(genesis_state@, spec) == Hash256::spec_zero(),
            match r {
                Option::Some(c) => ({
                    &&& chain_wf(&c)
                    &&& c.spec == spec
                    &&& c.present_slot == spec.genesis_slot
                    &&& c.head_block_root == c.genesis_block_root
                    &&& c.head_block_root == spec_genesis_root(genesis_state@, spec)
                    &&& c.head_block@ == spec_genesis_block(genesis_state@, spec)
                    &&& c.head_state@ == (BeaconStateView {
                        latest_block_header: crate::beacon_codec::spec_temporary_header(
                            spec_genesis_block(genesis_state@, spec),
                        ),
                        ..genesis_state@
                    })
                }),
                Option::None => true,
            },
    {
        let mut state = genesis_state;
        let genesis_block = make_genesis_block(&state, &spec);
        state.latest_block_header = genesis_block.temporary_block_header();
        let root = genesis_block.canonical_root();
        if root.is_zero() {
            return None;
        }
        let mut store = MemoryStore::new();
        store.put_block(root, genesis_block.duplicate());
        store.put_state(root, state.duplicate());
        let fork_choice = ReducedTree::new(root, spec.genesis_slot);
        let chain = BeaconChain {
            spec,
            store,
            fork_choice,
            genesis_block_root: root,
            head_block_root: root,
            head_block: genesis_block,
            head_state: state,
            present_slot: spec.genesis_slot,
        };
        proof {
            assert(chain.store@.blocks.len() == 1);
            assert(chain.store@.blocks[0].0 == root);
            assert(spec_lookup_block(chain.store@.blocks, root) == Some(chain.head_block@));
            assert(spec_lookup_state(chain.store@.states, root) == Some(chain.head_state@));
            assert(spec_lookup_block(
                chain.store@.blocks,
                chain.store@.blocks[0].1.previous_block_root,
            ) is None) by {
                assert(chain.store@.blocks[0].1.previous_block_root == Hash256::spec_zero());
                if spec_lookup_block(chain.store@.blocks, Hash256::spec_zero()) is Some {
                    assert(chain.store@.blocks[0].0 == Hash256::spec_zero()
                        || spec_lookup_block(
                        chain.store@.blocks.drop_first(),
                        Hash256::spec_zero(),
                    ) is Some);
                    assert(chain.store@.blocks.drop_first() =~= Seq::<
                        (Hash256, BeaconBlockView),
                    >::empty());
                }
            }
        }
        Some(chain)
    }

    /// The wall-clock slot last fed in; the slot clock lives at the edge.
    pub fn slot(&self) -> (r: u64)
        ensures
            r == self.present_slot,
    {
        self.present_slot
    }

    /// Feeds in the wall-clock slot.
    pub fn set_present_slot(&mut self, slot: u64)
        requires
            chain_wf(old(self)),
        ensures
            chain_wf(final(self)),
            final(self).present_slot == slot,
            final(self).head_state@ == old(self).head_state@,
            final(self).store@ == old(self).store@,
    {
        self.present_slot = slot;
    }

    pub fn head_root(&self) -> (r: Hash256)
        ensures
            r == self.head_block_root,
    {
        self.head_block_root
    }

    /// Applies a block: load the parent state, advance it to the block's
    /// slot, run the per-block transition, store the results, feed fork
    /// choice, re-evaluate the head, and re-root the tree when the head's
    /// finalization has moved onto a block the tree knows.  The head's
    /// finalized epoch never decreases, and the outcome is a pure function
    /// of the chain and the block.
    #[verifier::loop_isolation(false)]
    #[verifier::rlimit(100)]
    pub fn process_block(&mut self, block: BeaconBlock) -> (r: BlockProcessingOutcome)
        requires
            chain_wf(old(self)),
        ensures
            chain_wf(final(self)),
            final(self).spec == old(self).spec,
            final(self).present_slot == old(self).present_slot,
            final(self).genesis_block_root == old(self).genesis_block_root,
            final(self).head_state@.finalized_epoch >= old(self).head_state@.finalized_epoch,
            r == spec_block_outcome(&old(self), block@),
            !(r is Processed) ==> ({
                &&& final(self).store@ == old(self).store@
                &&& final(self).fork_choice@ == old(self).fork_choice@
                &&& final(self).head_block_root == old(self).head_block_root
                &&& final(self).head_state@ == old(self).head_state@
                &&& final(self).head_block@ == old(self).head_block@
            }),
            r is Processed ==> ({
                let root = spec_block_signed_root(block@);
                let post = spec_block_post_state(&old(self), block@);
                let mid = spec_tree_after_insert(old(self).fork_choice@.nodes, block@);
                let t = crate::fork_choice::ReducedTreeView {
                    nodes: mid,
                    votes: old(self).fork_choice@.votes,
                };
                let win = mid[crate::fork_choice::spec_find_head_from(t, post.balances, 0)].root;
                let candidate = spec_lookup_state(final(self).store@.states, win)->Some_0;
                &&& final(self).store@.blocks == old(self).store@.blocks.push((root, block@))
                &&& final(self).store@.states == old(self).store@.states.push((root, post))
                &&& (if candidate.finalized_epoch >= old(self).head_state@.finalized_epoch {
                    final(self).head_block_root == win && final(self).head_state@ == candidate
                } else {
                    final(self).head_block_root == old(self).head_block_root && final(self).head_state@
                        == old(self).head_state@
                })
                &&& (if final(self).head_state@.finalized_root == mid[0].root || spec_find_node(
                    mid,
                    final(self).head_state@.finalized_root,
                ) is None {
                    final(self).fork_choice@.nodes == mid && final(self).fork_choice@.votes == old(
                        self,
                    ).fork_choice@.votes
                } else {
                    final(self).fork_choice@.nodes.len() >= 1
                        && final(self).fork_choice@.nodes[0].root
                        == final(self).head_state@.finalized_root
                })
            }),
    {
        if block.slot > self.present_slot {
            return BlockProcessingOutcome::FutureSlot {
                present_slot: self.present_slot,
                block_slot: block.slot,
            };
        }
        let root = block.canonical_root();
        if root.is_zero() || block.slot <= self.spec.genesis_slot {
            return BlockProcessingOutcome::GenesisBlock;
        }
        if self.store.exists_block(&root) {
            return BlockProcessingOutcome::BlockIsAlreadyKnown;
        }
        let parent_root = block.previous_block_root;
        let parent_slot: u64;
        match self.store.get_block(&parent_root) {
            Option::None => {
                return BlockProcessingOutcome::ParentUnknown { parent: parent_root };
            },
            Option::Some(pb) => {
                parent_slot = pb.slot;
            },
        }
        if block.slot <= parent_slot {
            return BlockProcessingOutcome::InvalidBlock {
                reason: BlockError::StateSlotMismatch,
            };
        }
        proof {
            lemma_parallel_state_lookup(self.store@, parent_root);
        }
        let mut state: BeaconState;
        match self.store.get_state(&parent_root) {
            Option::None => {
                proof {
                    assert(false);
                }
                return BlockProcessingOutcome::GenesisBlock;
            },
            Option::Some(ps) => {
                state = ps.duplicate();
            },
        }
        proof {
            lemma_stored_state_wf(self.store@, parent_root, self.spec);
            lemma_parallel_slot(self.store@, parent_root);
        }
        let ghost parent_state = state@;
        while state.slot < block.slot
            invariant
                st_pre(state@, self.spec),
                state@.slot <= block@.slot,
                spec_advance(state@, block@.slot, self.spec) == spec_advance(
                    parent_state,
                    block@.slot,
                    self.spec,
                ),
            decreases block@.slot - state@.slot,
        {
            match per_slot_processing(&mut state, &self.spec) {
                Ok(()) => {},
                Err(_) => {
                    proof {
                        assert(false);
                    }
                    return BlockProcessingOutcome::GenesisBlock;
                },
            }
        }
        proof {
            assert(state@ == spec_advance(parent_state, block@.slot, self.spec));
            assert(tx_pre(state@, self.spec));
        }
        match per_block_processing(&mut state, &block, &self.spec) {
            Ok(()) => {},
            Err(e) => {
                return BlockProcessingOutcome::InvalidBlock { reason: e };
            },
        }
        let ghost post = state@;
        let ghost pre_store = self.store@;
        proof {
            assert(post == spec_block_post_state(&old(self), block@));
            lemma_parallel_state_lookup(pre_store, root);
        }
        self.store.put_block(root, block.duplicate());
        self.store.put_state(root, state.duplicate());
        proof {
            crate::store::lemma_lookup_block_push(pre_store.blocks, root, block@);
            crate::store::lemma_lookup_state_push(pre_store.states, root, state@);
            lemma_store_keys_wf_push(pre_store, self.store@, root, block@, state@, self.spec);
            // The new root was not in the tree: every tree root is stored,
            // and this one was not.
            if spec_find_node(old(self).fork_choice@.nodes, root) is Some {
                crate::fork_choice::lemma_find_node_in_range(old(self).fork_choice@.nodes, root);
                assert(false);
            }
        }
        let fc_result = self.fork_choice.process_block(block.slot, root, parent_root);
        match fc_result {
            Ok(()) => {},
            Err(_) => {},
        }
        let ghost mid = self.fork_choice@.nodes;
        proof {
            assert(mid == spec_tree_after_insert(old(self).fork_choice@.nodes, block@));
            assert(forall|i: int|
                0 <= i < mid.len() ==> spec_lookup_block(
                    self.store@.blocks,
                    (#[trigger] mid[i]).root,
                ) is Some && spec_lookup_state(self.store@.states, mid[i].root) is Some);
        }
        let tree_root = self.fork_choice.nodes[0].root;
        let tree_root_slot = self.fork_choice.nodes[0].slot;
        match self.fork_choice.find_head(tree_root_slot, tree_root, &state.balances) {
            Result::<Hash256, crate::fork_choice::ForkChoiceError>::Err(_) => {
                proof {
                    assert(spec_find_node(mid, mid[0].root) == Some(0int));
                    assert(false);
                }
            },
            Result::<Hash256, crate::fork_choice::ForkChoiceError>::Ok(new_head_root) => {
                proof {
                    assert(spec_find_node(mid, mid[0].root) == Some(0int));
                    lemma_find_head_in_range(self.fork_choice@, state@.balances, 0);
                    lemma_parallel_state_lookup(self.store@, new_head_root);
                }
                let new_head_state_opt = self.store.get_state(&new_head_root);
                match new_head_state_opt {
                    Option::None => {
                        proof {
                            assert(false);
                        }
                    },
                    Option::Some(nhs) => {
                        if nhs.finalized_epoch >= self.head_state.finalized_epoch {
                            let new_state = nhs.duplicate();
                            match self.store.get_block(&new_head_root) {
                                Option::None => {
                                    proof {
                                        assert(false);
                                    }
                                },
                                Option::Some(nhb) => {
                                    let new_block = nhb.duplicate();
                                    proof {
                                        lemma_stored_state_wf(
                                            self.store@,
                                            new_head_root,
                                            self.spec,
                                        );
                                    }
                                    self.head_block = new_block;
                                    self.head_state = new_state;
                                    self.head_block_root = new_head_root;
                                },
                            }
                        }
                    },
                }
            },
        }
        // Re-root the tree when the head's finalized block is a tree node
        // other than the current tree root.
        let current_tree_root = self.fork_choice.nodes[0].root;
        let fin_root = self.head_state.finalized_root;
        if !fin_root.eq_root(&current_tree_root) && self.fork_choice.contains_block(&fin_root) {
            proof {
                crate::fork_choice::lemma_find_node_in_range(self.fork_choice@.nodes, fin_root);
                lemma_parallel_state_lookup(self.store@, fin_root);
            }
            let fin_slot: u64;
            match self.store.get_block(&fin_root) {
                Option::None => {
                    proof {
                        assert(false);
                    }
                    fin_slot = 0;
                },
                Option::Some(fb) => {
                    fin_slot = fb.slot;
                },
            }
            match self.fork_choice.update_finalized_root(fin_slot, fin_root) {
                Ok(()) => {},
                Err(_) => {
                    proof {
                        assert(false);
                    }
                },
            }
            proof {
                assert forall|i: int| 0 <= i < self.fork_choice@.nodes.len() implies spec_lookup_block(
                    self.store@.blocks,
                    (#[trigger] self.fork_choice@.nodes[i]).root,
                ) is Some && spec_lookup_state(
                    self.store@.states,
                    self.fork_choice@.nodes[i].root,
                ) is Some by {
                    assert(spec_find_node(mid, self.fork_choice@.nodes[i].root) is Some);
                    crate::fork_choice::lemma_find_node_in_range(
                        mid,
                        self.fork_choice@.nodes[i].root,
                    );
                }
            }
        }
        BlockProcessingOutcome::Processed { block_root: root }
    }

    /// Validates an attestation against the head state and, when valid and
    /// its head vote names a block fork choice knows, records one latest
    /// vote per signing committee member.
    #[verifier::loop_isolation(false)]
    pub fn process_attestation(&mut self, attestation: Attestation) -> (r:
        AttestationProcessingOutcome)
        requires
            chain_wf(old(self)),
        ensures
            chain_wf(final(self)),
            final(self).store@ == old(self).store@,
            final(self).head_state@ == old(self).head_state@,
            final(self).head_block_root == old(self).head_block_root,
            final(self).fork_choice@.nodes == old(self).fork_choice@.nodes,
            r == AttestationProcessingOutcome::Processed <==> (tx_pre(
                old(self).head_state@,
                old(self).spec,
            ) && spec_valid_attestation(old(self).head_state@, attestation@, old(self).spec)
                && spec_find_node(
                old(self).fork_choice@.nodes,
                attestation@.data.beacon_block_root,
            ) is Some),
    {
        if !(self.head_state.slot > self.spec.genesis_slot) {
            return AttestationProcessingOutcome::Invalid;
        }
        if !validate_attestation(&self.head_state, &attestation, &self.spec) {
            return AttestationProcessingOutcome::Invalid;
        }
        if !self.fork_choice.contains_block(&attestation.data.beacon_block_root) {
            return AttestationProcessingOutcome::Invalid;
        }
        let n = attestation.aggregation_bitfield.len();
        let mut i: usize = 0;
        while i < n
            invariant
                fc_wf(self.fork_choice@),
                self.fork_choice@.nodes == old(self).fork_choice@.nodes,
                self.store@ == old(self).store@,
                self.head_block_root == old(self).head_block_root,
                self.head_block@ == old(self).head_block@,
                self.head_state@ == old(self).head_state@,
                self.spec == old(self).spec,
                self.genesis_block_root == old(self).genesis_block_root,
                self.present_slot == old(self).present_slot,
                n == attestation@.bits.len(),
                i <= n,
                spec_find_node(
                    old(self).fork_choice@.nodes,
                    attestation@.data.beacon_block_root,
                ) is Some,
            decreases n - i,
        {
            if attestation.aggregation_bitfield.get(i) {
                match self.fork_choice.process_attestation(
                    i,
                    attestation.data.beacon_block_root,
                    attestation.data.slot,
                ) {
                    Ok(()) => {},
                    Err(_) => {
                        proof {
                            assert(false);
                        }
                    },
                }
            }
            i = i + 1;
        }
        AttestationProcessingOutcome::Processed
    }

    /// The chain of `(root, slot)` pairs walking parent links down from the
    /// head: exactly the canonical walk, slots strictly decreasing, every
    /// entry stored at its slot.
    #[verifier::loop_isolation(false)]
    pub fn rev_iter_block_roots(&self) -> (r: Vec<(Hash256, u64)>)
        requires
            chain_wf(self),
        ensures
            r@ == spec_head_walk(self),
            r@.len() >= 1,
            r@[0] == (self.head_block_root, self.head_block@.slot),
            forall|k: int| 0 <= k && k + 1 < r@.len() ==> #[trigger] r@[k + 1].1 < r@[k].1,
            forall|k: int|
                0 <= k < r@.len() ==> (match spec_lookup_block(
                    self.store@.blocks,
                    #[trigger] r@[k].0,
                ) {
                    Option::Some(b) => b.slot == r@[k].1,
                    Option::None => false,
                }),
    {
        let mut out: Vec<(Hash256, u64)> = Vec::new();
        out.push((self.head_block_root, self.head_block.slot));
        let mut cur_slot: u64 = self.head_block.slot;
        let mut cur_parent: Hash256 = self.head_block.previous_block_root;
        proof {
            assert(spec_lookup_block(self.store@.blocks, self.head_block_root) == Some(
                self.head_block@,
            ));
            assert(out@.take(out@.len() - 1) =~= Seq::<(Hash256, u64)>::empty());
        }
        loop
            invariant
                out@.len() >= 1,
                out@[0] == (self.head_block_root, self.head_block@.slot),
                forall|k: int| 0 <= k && k + 1 < out@.len() ==> #[trigger] out@[k + 1].1 < out@[k].1,
                forall|k: int|
                    0 <= k < out@.len() ==> (match spec_lookup_block(
                        self.store@.blocks,
                        #[trigger] out@[k].0,
                    ) {
                        Option::Some(b) => b.slot == out@[k].1,
                        Option::None => false,
                    }),
                out@[out@.len() - 1].1 == cur_slot,
                (match spec_lookup_block(self.store@.blocks, out@[out@.len() - 1].0) {
                    Option::Some(b) => b.previous_block_root == cur_parent,
                    Option::None => false,
                }),
                spec_head_walk(self) == out@.take(out@.len() - 1) + spec_walk(
                    self.store@.blocks,
                    out@[out@.len() - 1].0,
                    cur_slot,
                ),
            decreases cur_slot,
        {
            let ghost last = out@[out@.len() - 1];
            let next = self.store.get_block(&cur_parent);
            match next {
                Option::None => {
                    proof {
                        assert(spec_walk(self.store@.blocks, last.0, cur_slot) =~= seq![last]);
                        assert(out@.take(out@.len() - 1) + seq![last] =~= out@);
                    }
                    return out;
                },
                Option::Some(pb) => {
                    proof {
                        lemma_lookup_slope(self.store@, out@[out@.len() - 1].0, self.spec);
                    }
                    if !(pb.slot < cur_slot) {
                        proof {
                            assert(false);
                        }
                        return out;
                    }
                    let next_slot = pb.slot;
                    let next_parent = pb.previous_block_root;
                    proof {
                        assert(spec_walk(self.store@.blocks, last.0, cur_slot) == seq![last]
                            + spec_walk(self.store@.blocks, cur_parent, next_slot));
                        assert(out@.push((cur_parent, next_slot)).take(out@.len() as int)
                            =~= out@.take(out@.len() - 1).push(last));
                        assert(out@.take(out@.len() - 1).push(last) =~= out@);
                    }
                    out.push((cur_parent, next_slot));
                    cur_slot = next_slot;
                    cur_parent = next_parent;
                },
            }
        }
    }

    /// The root of the canonical block at `slot`: the first entry at that
    /// slot on the walk down from the head, if any.
    #[verifier::loop_isolation(false)]
    pub fn root_at_slot(&self, slot: u64) -> (r: Option<Hash256>)
        requires
            chain_wf(self),
        ensures
            r == spec_root_at(spec_head_walk(self), slot),
            r matches Some(root) ==> (match spec_lookup_block(self.store@.blocks, root) {
                Option::Some(b) => b.slot == slot,
                Option::None => false,
            }),
    {
        let roots = self.rev_iter_block_roots();
        let n = roots.len();
        let mut i: usize = 0;
        proof {
            assert(roots@.skip(0) =~= roots@);
        }
        while i < n
            invariant
                n == roots@.len(),
                i <= n,
                roots@ == spec_head_walk(self),
                spec_root_at(spec_head_walk(self), slot) == spec_root_at(
                    roots@.skip(i as int),
                    slot,
                ),
                forall|k: int|
                    0 <= k < roots@.len() ==> (match spec_lookup_block(
                        self.store@.blocks,
                        #[trigger] roots@[k].0,
                    ) {
                        Option::Some(b) => b.slot == roots@[k].1,
                        Option::None => false,
                    }),
            decreases n - i,
        {
            proof {
                assert(roots@.skip(i as int)[0] == roots@[i as int]);
                assert(roots@.skip(i as int).drop_first() =~= roots@.skip(i + 1));
            }
            if roots[i].1 == slot {
                return Some(roots[i].0);
            }
            i = i + 1;
        }
        proof {
            assert(roots@.skip(n as int) =~= Seq::<(Hash256, u64)>::empty());
        }
        None
    }
}

/// Parallel entries: a stored state's slot equals its block's slot.
pub proof fn lemma_parallel_slot(s: MemoryStoreView, root: Hash256)
    requires
        s.blocks.len() == s.states.len(),
        forall|i: int| 0 <= i < s.blocks.len() ==> #[trigger] s.blocks[i].0 == s.states[i].0,
        forall|i: int|
            0 <= i < s.blocks.len() ==> #[trigger] s.states[i].1.slot == s.blocks[i].1.slot,
        spec_lookup_block(s.blocks, root) is Some,
        spec_lookup_state(s.states, root) is Some,
    ensures
        spec_lookup_state(s.states, root)->Some_0.slot == spec_lookup_block(
            s.blocks,
            root,
        )->Some_0.slot,
    decreases s.blocks.len(),
{
    if s.blocks.len() > 0 {
        if s.blocks[0].0 == root {
        } else {
            let s2 = MemoryStoreView {
                blocks: s.blocks.drop_first(),
                states: s.states.drop_first(),
            };
            assert forall|i: int| 0 <= i < s2.blocks.len() implies #[trigger] s2.blocks[i].0
                == s2.states[i].0 && s2.states[i].1.slot == s2.blocks[i].1.slot by {
                assert(s2.blocks[i] == s.blocks[i + 1]);
                assert(s2.states[i] == s.states[i + 1]);
            }
            lemma_parallel_slot(s2, root);
        }
    }
}

/// Parallel keys: a state is stored under a root exactly when a block is.
pub proof fn lemma_parallel_state_lookup(s: MemoryStoreView, root: Hash256)
    requires
        s.blocks.len() == s.states.len(),
        forall|i: int| 0 <= i < s.blocks.len() ==> #[trigger] s.blocks[i].0 == s.states[i].0,
    ensures
        (spec_lookup_block(s.blocks, root) is Some) == (spec_lookup_state(s.states, root) is Some),
    decreases s.blocks.len(),
{
    if s.blocks.len() > 0 {
        if s.blocks[0].0 == root {
        } else {
            let s2 = MemoryStoreView { blocks: s.blocks.drop_first(), states: s.states.drop_first() };
            assert forall|i: int| 0 <= i < s2.blocks.len() implies #[trigger] s2.blocks[i].0
                == s2.states[i].0 by {
                assert(s2.blocks[i] == s.blocks[i + 1]);
                assert(s2.states[i] == s.states[i + 1]);
            }
            lemma_parallel_state_lookup(s2, root);
        }
    }
}

/// A stored state is well formed.
pub proof fn lemma_stored_state_wf(s: MemoryStoreView, root: Hash256, cs: ChainSpec)
    requires
        forall|i: int| 0 <= i < s.states.len() ==> st_pre(#[trigger] s.states[i].1, cs),
        spec_lookup_state(s.states, root) is Some,
    ensures
        st_pre(spec_lookup_state(s.states, root)->Some_0, cs),
    decreases s.states.len(),
{
    if s.states.len() > 0 {
        if s.states[0].0 == root {
            assert(st_pre(s.states[0].1, cs));
        } else {
            let rest = s.states.drop_first();
            assert forall|i: int| 0 <= i < rest.len() implies st_pre(#[trigger] rest[i].1, cs) by {
                assert(rest[i] == s.states[i + 1]);
            }
            lemma_stored_state_wf(MemoryStoreView { blocks: s.blocks, states: rest }, root, cs);
        }
    }
}

/// A looked-up block's stored parent sits at a strictly smaller slot.
pub proof fn lemma_lookup_slope(s: MemoryStoreView, root: Hash256, cs: ChainSpec)
    requires
        store_keys_wf(s, cs),
        spec_lookup_block(s.blocks, root) is Some,
    ensures
        (match spec_lookup_block(
            s.blocks,
            spec_lookup_block(s.blocks, root)->Some_0.previous_block_root,
        ) {
            Option::Some(p) => p.slot < spec_lookup_block(s.blocks, root)->Some_0.slot,
            Option::None => true,
        }),
{
    lemma_lookup_is_entry(s.blocks, root);
}

/// A successful lookup yields some entry's value.
proof fn lemma_lookup_is_entry(blocks: Seq<(Hash256, BeaconBlockView)>, root: Hash256)
    requires
        spec_lookup_block(blocks, root) is Some,
    ensures
        exists|i: int|
            0 <= i < blocks.len() && #[trigger] blocks[i].1 == spec_lookup_block(
                blocks,
                root,
            )->Some_0 && blocks[i].0 == root,
    decreases blocks.len(),
{
    if blocks.len() > 0 {
        if blocks[0].0 == root {
            assert(blocks[0].1 == spec_lookup_block(blocks, root)->Some_0);
        } else {
            lemma_lookup_is_entry(blocks.drop_first(), root);
            let i = choose|i: int|
                0 <= i < blocks.drop_first().len() && #[trigger] blocks.drop_first()[i].1
                    == spec_lookup_block(blocks.drop_first(), root)->Some_0
                    && blocks.drop_first()[i].0 == root;
            assert(blocks[i + 1] == blocks.drop_first()[i]);
        }
    }
}

/// Appending a freshly-processed block and its post-state keeps the store
/// invariant.
#[verifier::rlimit(100)]
proof fn lemma_store_keys_wf_push(
    pre: MemoryStoreView,
    post: MemoryStoreView,
    root: Hash256,
    b: BeaconBlockView,
    st: BeaconStateView,
    cs: ChainSpec,
)
    requires
        store_keys_wf(pre, cs),
        post.blocks == pre.blocks.push((root, b)),
        post.states == pre.states.push((root, st)),
        root != Hash256::spec_zero(),
        st.slot == b.slot,
        st_pre(st, cs),
        spec_lookup_block(pre.blocks, root) is None,
        (match spec_lookup_block(pre.blocks, b.previous_block_root) {
            Option::Some(p) => p.slot < b.slot,
            Option::None => false,
        }),
    ensures
        store_keys_wf(post, cs),
{
    crate::store::lemma_lookup_block_push(pre.blocks, root, b);
    assert forall|i: int|
        0 <= i < post.blocks.len() implies (spec_lookup_block(
        post.blocks,
        #[trigger] post.blocks[i].1.previous_block_root,
    ) is Some || post.blocks[i].1.previous_block_root == Hash256::spec_zero()) by {
        if i < pre.blocks.len() {
            assert(post.blocks[i] == pre.blocks[i]);
            if spec_lookup_block(pre.blocks, pre.blocks[i].1.previous_block_root) is Some {
                assert(spec_lookup_block(post.blocks, pre.blocks[i].1.previous_block_root)
                    is Some);
            }
        } else {
            assert(post.blocks[i] == (root, b));
            assert(spec_lookup_block(pre.blocks, b.previous_block_root) is Some);
        }
    }
    assert forall|i: int|
        0 <= i < post.blocks.len() implies (match spec_lookup_block(
        post.blocks,
        #[trigger] post.blocks[i].1.previous_block_root,
    ) {
        Option::Some(p) => p.slot < post.blocks[i].1.slot,
        Option::None => true,
    }) by {
        if i < pre.blocks.len() {
            assert(post.blocks[i] == pre.blocks[i]);
            if spec_lookup_block(pre.blocks, pre.blocks[i].1.previous_block_root) is Some {
            } else {
                assert(pre.blocks[i].1.previous_block_root == Hash256::spec_zero());
                assert(root != Hash256::spec_zero());
                assert(spec_lookup_block(post.blocks, Hash256::spec_zero()) == spec_lookup_block(
                    pre.blocks,
                    Hash256::spec_zero(),
                ));
            }
        } else {
            assert(post.blocks[i] == (root, b));
        }
    }
}

/// A key no lookup finds heads no entry.
proof fn lemma_absent_key_not_entry(blocks: Seq<(Hash256, BeaconBlockView)>, root: Hash256)
    requires
        spec_lookup_block(blocks, root) is None,
    ensures
        forall|i: int| 0 <= i < blocks.len() ==> #[trigger] blocks[i].0 != root,
    decreases blocks.len(),
{
    if blocks.len() > 0 {
        lemma_absent_key_not_entry(blocks.drop_first(), root);
        assert forall|i: int| 0 <= i < blocks.len() implies #[trigger] blocks[i].0 != root by {
            if i > 0 {
                assert(blocks.drop_first()[i - 1] == blocks[i]);
            }
        }
    }
}

/// The head-selection walk stays inside the tree.
proof fn lemma_find_head_in_range(
    t: crate::fork_choice::ReducedTreeView,
    balances: Seq<u64>,
    cur: int,
)
    requires
        0 <= cur < t.nodes.len(),
    ensures
        0 <= crate::fork_choice::spec_find_head_from(t, balances, cur) < t.nodes.len(),
    decreases (if t.nodes.len() - cur >= 0 { t.nodes.len() - cur } else { 0 }),
{
    match crate::fork_choice::spec_best_child(t, balances, cur) {
        Option::None => {},
        Option::Some(c) => {
            if cur < c < t.nodes.len() {
                lemma_find_head_in_range(t, balances, c);
            }
        },
    }
}

} // verus!
