//! Content-addressed in-memory persistence of blocks and states by
//! canonical root, and the deep copies the chain takes of stored values.

use vstd::prelude::*;
use crate::hash256::Hash256;
use crate::state::{BeaconState, BeaconStateView};
use crate::types::{
    Attestation, AttesterSlashing, BeaconBlock, BeaconBlockBody, BeaconBlockView, Deposit,
    IndexedAttestation, PendingAttestation,
};

verus! {

// ---------------------------------------------------------------------------
// Deep copies
// ---------------------------------------------------------------------------

/// An element-by-element copy of a vector of copyable values.
pub fn copy_vec<T: Copy>(v: &Vec<T>) -> (r: Vec<T>)
    ensures
        r@ == v@,
{
    let mut out: Vec<T> = Vec::new();
    let mut i: usize = 0;
    while i < v.len()
        invariant
            i <= v@.len(),
            out@ == v@.take(i as int),
        decreases v@.len() - i,
    {
        proof {
            assert(v@.take(i + 1) =~= v@.take(i as int).push(v@[i as int]));
        }
        out.push(v[i]);
        i = i + 1;
    }
    proof {
        assert(v@.take(v@.len() as int) =~= v@);
    }
    out
}

impl PendingAttestation {
    pub fn duplicate(&self) -> (r: PendingAttestation)
        ensures
            r@ == self@,
    {
        PendingAttestation {
            aggregation_bitfield: self.aggregation_bitfield.duplicate(),
            data: self.data,
            inclusion_delay: self.inclusion_delay,
            proposer_index: self.proposer_index,
        }
    }
}

impl Attestation {
    pub fn duplicate(&self) -> (r: Attestation)
        ensures
            r@ == self@,
    {
        Attestation {
            aggregation_bitfield: self.aggregation_bitfield.duplicate(),
            data: self.data,
            signature: self.signature,
        }
    }
}

impl IndexedAttestation {
    pub fn duplicate(&self) -> (r: IndexedAttestation)
        ensures
            r@ == self@,
    {
        IndexedAttestation {
            validator_indices: copy_vec(&self.validator_indices),
            data: self.data,
            signature: self.signature,
        }
    }
}

impl AttesterSlashing {
    pub fn duplicate(&self) -> (r: AttesterSlashing)
        ensures
            r@ == self@,
    {
        AttesterSlashing {
            attestation_1: self.attestation_1.duplicate(),
            attestation_2: self.attestation_2.duplicate(),
        }
    }
}

impl Deposit {
    pub fn duplicate(&self) -> (r: Deposit)
        ensures
            r@ == self@,
    {
        Deposit { proof: copy_vec(&self.proof), index: self.index, data: self.data }
    }
}

fn duplicate_attestations(v: &Vec<Attestation>) -> (r: Vec<Attestation>)
    ensures
        r@.len() == v@.len(),
        forall|i: int| 0 <= i < r@.len() ==> r@[i]@ == v@[i]@,
{
    let mut out: Vec<Attestation> = Vec::new();
    let mut i: usize = 0;
    while i < v.len()
        invariant
            i <= v@.len(),
            out@.len() == i,
            forall|j: int| 0 <= j < i ==> out@[j]@ == v@[j]@,
        decreases v@.len() - i,
    {
        out.push(v[i].duplicate());
        i = i + 1;
    }
    out
}

fn duplicate_attester_slashings(v: &Vec<AttesterSlashing>) -> (r: Vec<AttesterSlashing>)
    ensures
        r@.len() == v@.len(),
        forall|i: int| 0 <= i < r@.len() ==> r@[i]@ == v@[i]@,
{
    let mut out: Vec<AttesterSlashing> = Vec::new();
    let mut i: usize = 0;
    while i < v.len()
        invariant
            i <= v@.len(),
            out@.len() == i,
            forall|j: int| 0 <= j < i ==> out@[j]@ == v@[j]@,
        decreases v@.len() - i,
    {
        out.push(v[i].duplicate());
        i = i + 1;
    }
    out
}

fn duplicate_deposits(v: &Vec<Deposit>) -> (r: Vec<Deposit>)
    ensures
        r@.len() == v@.len(),
        forall|i: int| 0 <= i < r@.len() ==> r@[i]@ == v@[i]@,
{
    let mut out: Vec<Deposit> = Vec::new();
    let mut i: usize = 0;
    while i < v.len()
        invariant
            i <= v@.len(),
            out@.len() == i,
            forall|j: int| 0 <= j < i ==> out@[j]@ == v@[j]@,
        decreases v@.len() - i,
    {
        out.push(v[i].duplicate());
        i = i + 1;
    }
    out
}

fn duplicate_pending(v: &Vec<PendingAttestation>) -> (r: Vec<PendingAttestation>)
    ensures
        r@.len() == v@.len(),
        forall|i: int| 0 <= i < r@.len() ==> r@[i]@ == v@[i]@,
{
    let mut out: Vec<PendingAttestation> = Vec::new();
    let mut i: usize = 0;
    while i < v.len()
        invariant
            i <= v@.len(),
            out@.len() == i,
            forall|j: int| 0 <= j < i ==> out@[j]@ == v@[j]@,
        decreases v@.len() - i,
    {
        out.push(v[i].duplicate());
        i = i + 1;
    }
    out
}

impl BeaconBlockBody {
    pub fn duplicate(&self) -> (r: BeaconBlockBody)
        ensures
            r@ == self@,
    {
        let r = BeaconBlockBody {
            randao_reveal: self.randao_reveal,
            eth1_data: self.eth1_data,
            proposer_slashings: copy_vec(&self.proposer_slashings),
            attester_slashings: duplicate_attester_slashings(&self.attester_slashings),
            attestations: duplicate_attestations(&self.attestations),
            deposits: duplicate_deposits(&self.deposits),
            voluntary_exits: copy_vec(&self.voluntary_exits),
            transfers: copy_vec(&self.transfers),
        };
        proof {
            assert(r@.attester_slashings =~= self@.attester_slashings);
            assert(r@.attestations =~= self@.attestations);
            assert(r@.deposits =~= self@.deposits);
        }
        r
    }
}

impl BeaconBlock {
    pub fn duplicate(&self) -> (r: BeaconBlock)
        ensures
            r@ == self@,
    {
        BeaconBlock {
            slot: self.slot,
            previous_block_root: self.previous_block_root,
            state_root: self.state_root,
            body: self.body.duplicate(),
            signature: self.signature,
        }
    }
}

impl BeaconState {
    pub fn duplicate(&self) -> (r: BeaconState)
        ensures
            r@ == self@,
    {
        let r = BeaconState {
            slot: self.slot,
            genesis_time: self.genesis_time,
            fork: self.fork,
            validator_registry: copy_vec(&self.validator_registry),
            balances: copy_vec(&self.balances),
            latest_block_header: self.latest_block_header,
            latest_randao_mixes: copy_vec(&self.latest_randao_mixes),
            latest_eth1_data: self.latest_eth1_data,
            eth1_data_votes: copy_vec(&self.eth1_data_votes),
            deposit_index: self.deposit_index,
            current_epoch_attestations: duplicate_pending(&self.current_epoch_attestations),
            previous_epoch_attestations: duplicate_pending(&self.previous_epoch_attestations),
            previous_justified_epoch: self.previous_justified_epoch,
            previous_justified_root: self.previous_justified_root,
            current_justified_epoch: self.current_justified_epoch,
            current_justified_root: self.current_justified_root,
            justification_bitfield: self.justification_bitfield,
            finalized_epoch: self.finalized_epoch,
            finalized_root: self.finalized_root,
        };
        proof {
            assert(r@.current_epoch_attestations =~= self@.current_epoch_attestations);
            assert(r@.previous_epoch_attestations =~= self@.previous_epoch_attestations);
        }
        r
    }
}

// ---------------------------------------------------------------------------
// The store
// ---------------------------------------------------------------------------

pub struct BlockEntry {
    pub root: Hash256,
    pub block: BeaconBlock,
}

pub struct StateEntry {
    pub root: Hash256,
    pub state: BeaconState,
}

/// In-memory content-addressed storage: blocks and post-states keyed by the
/// block's canonical root.
pub struct MemoryStore {
    pub blocks: Vec<BlockEntry>,
    pub states: Vec<StateEntry>,
}

pub struct MemoryStoreView {
    pub blocks: Seq<(Hash256, BeaconBlockView)>,
    pub states: Seq<(Hash256, BeaconStateView)>,
}

impl View for MemoryStore {
    type V = MemoryStoreView;

    open spec fn view(&self) -> MemoryStoreView {
        MemoryStoreView {
            blocks: Seq::new(self.blocks@.len(), |i: int| (self.blocks@[i].root, self.blocks@[i].block@)),
            states: Seq::new(self.states@.len(), |i: int| (self.states@[i].root, self.states@[i].state@)),
        }
    }
}

/// The first value stored under `root`, if any.
pub open spec fn spec_lookup_block(s: Seq<(Hash256, BeaconBlockView)>, root: Hash256) -> Option<
    BeaconBlockView,
>
    decreases s.len(),
{
    if s.len() == 0 {
        None
    } else if s[0].0 == root {
        Some(s[0].1)
    } else {
        spec_lookup_block(s.drop_first(), root)
    }
}

pub open spec fn spec_lookup_state(s: Seq<(Hash256, BeaconStateView)>, root: Hash256) -> Option<
    BeaconStateView,
>
    decreases s.len(),
{
    if s.len() == 0 {
        None
    } else if s[0].0 == root {
        Some(s[0].1)
    } else {
        spec_lookup_state(s.drop_first(), root)
    }
}

impl MemoryStore {
    pub fn new() -> (r: MemoryStore)
        ensures
            r@.blocks.len() == 0,
            r@.states.len() == 0,
    {
        let r = MemoryStore { blocks: Vec::new(), states: Vec::new() };
        proof {
            assert(r@.blocks =~= Seq::<(Hash256, BeaconBlockView)>::empty());
            assert(r@.states =~= Seq::<(Hash256, BeaconStateView)>::empty());
        }
        r
    }

    fn find_block_index(&self, root: &Hash256) -> (r: Option<usize>)
        ensures
            match r {
                Option::Some(i) => i < self@.blocks.len() && self@.blocks[i as int].0 == *root
                    && spec_lookup_block(self@.blocks, *root) == Some(self@.blocks[i as int].1),
                Option::None => spec_lookup_block(self@.blocks, *root) is None,
            },
    {
        let n = self.blocks.len();
        let mut k: usize = 0;
        proof {
            assert(self@.blocks.skip(0) =~= self@.blocks);
        }
        while k < n
            invariant
                n == self@.blocks.len(),
                k <= n,
                spec_lookup_block(self@.blocks, *root) == spec_lookup_block(
                    self@.blocks.skip(k as int),
                    *root,
                ),
                forall|j: int| 0 <= j < k ==> #[trigger] self@.blocks[j].0 != *root,
            decreases n - k,
        {
            proof {
                assert(self@.blocks.skip(k as int)[0] == self@.blocks[k as int]);
                assert(self@.blocks.skip(k as int).drop_first() =~= self@.blocks.skip(k + 1));
            }
            if self.blocks[k].root.eq_root(root) {
                return Some(k);
            }
            k = k + 1;
        }
        proof {
            assert(self@.blocks.skip(n as int) =~= Seq::<(Hash256, BeaconBlockView)>::empty());
        }
        None
    }

    fn find_state_index(&self, root: &Hash256) -> (r: Option<usize>)
        ensures
            match r {
                Option::Some(i) => i < self@.states.len() && self@.states[i as int].0 == *root
                    && spec_lookup_state(self@.states, *root) == Some(self@.states[i as int].1),
                Option::None => spec_lookup_state(self@.states, *root) is None,
            },
    {
        let n = self.states.len();
        let mut k: usize = 0;
        proof {
            assert(self@.states.skip(0) =~= self@.states);
        }
        while k < n
            invariant
                n == self@.states.len(),
                k <= n,
                spec_lookup_state(self@.states, *root) == spec_lookup_state(
                    self@.states.skip(k as int),
                    *root,
                ),
                forall|j: int| 0 <= j < k ==> #[trigger] self@.states[j].0 != *root,
            decreases n - k,
        {
            proof {
                assert(self@.states.skip(k as int)[0] == self@.states[k as int]);
                assert(self@.states.skip(k as int).drop_first() =~= self@.states.skip(k + 1));
            }
            if self.states[k].root.eq_root(root) {
                return Some(k);
            }
            k = k + 1;
        }
        proof {
            assert(self@.states.skip(n as int) =~= Seq::<(Hash256, BeaconStateView)>::empty());
        }
        None
    }

    pub fn exists_block(&self, root: &Hash256) -> (r: bool)
        ensures
            r == (spec_lookup_block(self@.blocks, *root) is Some),
    {
        match self.find_block_index(root) {
            Option::Some(_) => true,
            Option::None => false,
        }
    }

    /// A borrowed view of the block stored under `root`.
    pub fn get_block(&self, root: &Hash256) -> (r: Option<&BeaconBlock>)
        ensures
            match r {
                Option::Some(b) => spec_lookup_block(self@.blocks, *root) == Some(b@),
                Option::None => spec_lookup_block(self@.blocks, *root) is None,
            },
    {
        match self.find_block_index(root) {
            Option::Some(i) => Some(&self.blocks[i].block),
            Option::None => None,
        }
    }

    pub fn get_state(&self, root: &Hash256) -> (r: Option<&BeaconState>)
        ensures
            match r {
                Option::Some(s) => spec_lookup_state(self@.states, *root) == Some(s@),
                Option::None => spec_lookup_state(self@.states, *root) is None,
            },
    {
        match self.find_state_index(root) {
            Option::Some(i) => Some(&self.states[i].state),
            Option::None => None,
        }
    }

    /// Stores a block under `root`; earlier entries win lookups, so a
    /// duplicate put leaves every lookup unchanged.
    pub fn put_block(&mut self, root: Hash256, block: BeaconBlock)
        ensures
            final(self)@.blocks == old(self)@.blocks.push((root, block@)),
            final(self)@.states == old(self)@.states,
            spec_lookup_block(final(self)@.blocks, root) is Some,
            forall|r2: Hash256|
                spec_lookup_block(old(self)@.blocks, r2) is Some
                    ==> #[trigger] spec_lookup_block(final(self)@.blocks, r2) == spec_lookup_block(
                    old(self)@.blocks,
                    r2,
                ),
    {
        let ghost old_blocks = self@.blocks;
        self.blocks.push(BlockEntry { root, block });
        proof {
            assert(self@.blocks =~= old_blocks.push((root, self.blocks@[old_blocks.len() as int].block@)));
            assert(self@.states =~= old(self)@.states);
            lemma_lookup_block_push(old_blocks, root, self@.blocks[old_blocks.len() as int].1);
            assert forall|r2: Hash256|
                spec_lookup_block(old_blocks, r2) is Some implies #[trigger] spec_lookup_block(
                self@.blocks,
                r2,
            ) == spec_lookup_block(old_blocks, r2) by {
                lemma_lookup_block_push(old_blocks, r2, self@.blocks[old_blocks.len() as int].1);
            }
        }
    }

    pub fn put_state(&mut self, root: Hash256, state: BeaconState)
        ensures
            final(self)@.states == old(self)@.states.push((root, state@)),
            final(self)@.blocks == old(self)@.blocks,
            spec_lookup_state(final(self)@.states, root) is Some,
            forall|r2: Hash256|
                spec_lookup_state(old(self)@.states, r2) is Some
                    ==> #[trigger] spec_lookup_state(final(self)@.states, r2) == spec_lookup_state(
                    old(self)@.states,
                    r2,
                ),
    {
        let ghost old_states = self@.states;
        self.states.push(StateEntry { root, state });
        proof {
            assert(self@.states =~= old_states.push((root, self.states@[old_states.len() as int].state@)));
            assert(self@.blocks =~= old(self)@.blocks);
            lemma_lookup_state_push(old_states, root, self@.states[old_states.len() as int].1);
            assert forall|r2: Hash256|
                spec_lookup_state(old_states, r2) is Some implies #[trigger] spec_lookup_state(
                self@.states,
                r2,
            ) == spec_lookup_state(old_states, r2) by {
                lemma_lookup_state_push(old_states, r2, self@.states[old_states.len() as int].1);
            }
        }
    }
}

/// Lookup distributes over appending an entry: an existing key keeps its
/// value, a fresh key finds the appended one.
pub proof fn lemma_lookup_block_push(
    s: Seq<(Hash256, BeaconBlockView)>,
    root: Hash256,
    b: BeaconBlockView,
)
    ensures
        spec_lookup_block(s.push((root, b)), root) == (match spec_lookup_block(s, root) {
            Option::Some(x) => Some(x),
            Option::None => Some(b),
        }),
        forall|r2: Hash256|
            r2 != root ==> #[trigger] spec_lookup_block(s.push((root, b)), r2) == spec_lookup_block(
                s,
                r2,
            ),
    decreases s.len(),
{
    if s.len() == 0 {
        assert(s.push((root, b))[0] == (root, b));
        assert(s.push((root, b)).drop_first() =~= Seq::<(Hash256, BeaconBlockView)>::empty());
        assert forall|r2: Hash256| r2 != root implies #[trigger] spec_lookup_block(
            s.push((root, b)),
            r2,
        ) == spec_lookup_block(s, r2) by {
            assert(spec_lookup_block(s.push((root, b)).drop_first(), r2) is None);
        }
    } else {
        assert(s.push((root, b))[0] == s[0]);
        assert(s.push((root, b)).drop_first() =~= s.drop_first().push((root, b)));
        lemma_lookup_block_push(s.drop_first(), root, b);
        assert forall|r2: Hash256| r2 != root implies #[trigger] spec_lookup_block(
            s.push((root, b)),
            r2,
        ) == spec_lookup_block(s, r2) by {
            assert(spec_lookup_block(s.drop_first().push((root, b)), r2) == spec_lookup_block(
                s.drop_first(),
                r2,
            ));
        }
    }
}

pub proof fn lemma_lookup_state_push(
    s: Seq<(Hash256, BeaconStateView)>,
    root: Hash256,
    b: BeaconStateView,
)
    ensures
        spec_lookup_state(s.push((root, b)), root) == (match spec_lookup_state(s, root) {
            Option::Some(x) => Some(x),
            Option::None => Some(b),
        }),
        forall|r2: Hash256|
            r2 != root ==> #[trigger] spec_lookup_state(s.push((root, b)), r2) == spec_lookup_state(
                s,
                r2,
            ),
    decreases s.len(),
{
    if s.len() == 0 {
        assert(s.push((root, b))[0] == (root, b));
        assert(s.push((root, b)).drop_first() =~= Seq::<(Hash256, BeaconStateView)>::empty());
        assert forall|r2: Hash256| r2 != root implies #[trigger] spec_lookup_state(
            s.push((root, b)),
            r2,
        ) == spec_lookup_state(s, r2) by {
            assert(spec_lookup_state(s.push((root, b)).drop_first(), r2) is None);
        }
    } else {
        assert(s.push((root, b))[0] == s[0]);
        assert(s.push((root, b)).drop_first() =~= s.drop_first().push((root, b)));
        lemma_lookup_state_push(s.drop_first(), root, b);
        assert forall|r2: Hash256| r2 != root implies #[trigger] spec_lookup_state(
            s.push((root, b)),
            r2,
        ) == spec_lookup_state(s, r2) by {
            assert(spec_lookup_state(s.drop_first().push((root, b)), r2) == spec_lookup_state(
                s.drop_first(),
                r2,
            ));
        }
    }
}

} // verus!
