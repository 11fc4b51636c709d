//! LMD-GHOST fork choice over a block tree rooted at the finalized block;
//! finalization re-roots the tree and prunes everything else.  Between
//! finalizations every processed block is materialized — storage grows
//! with the blocks seen, and shrinks to the finalized subtree at each
//! re-root.
//!
//! Nodes are appended under known parents, so a child's index is always
//! greater than its parent's; walks towards the root terminate and walks
//! away from it strictly increase the index.  A validator holds at most one
//! latest vote; head selection descends through the heaviest child,
//! breaking ties towards the lexicographically greater root.

use vstd::prelude::*;
use crate::hash256::Hash256;

verus! {

#[derive(Clone, Copy, PartialEq, Eq, Structural, Debug)]
pub struct FcNode {
    pub root: Hash256,
    pub slot: u64,
    /// Index of the parent node; the root points at itself.
    pub parent: usize,
}

/// A validator's latest vote: the block it attested to, and that block's
/// slot, used to discard stale votes.
#[derive(Clone, Copy, PartialEq, Eq, Structural, Debug)]
pub struct Vote {
    pub root: Hash256,
    pub slot: u64,
}

#[derive(Clone, Copy, PartialEq, Eq, Structural, Debug)]
pub enum ForkChoiceError {
    UnknownParent,
    UnknownBlock,
}

pub struct ReducedTree {
    pub nodes: Vec<FcNode>,
    /// Latest vote per validator index; extended on demand.
    pub votes: Vec<Option<Vote>>,
}

pub struct ReducedTreeView {
    pub nodes: Seq<FcNode>,
    pub votes: Seq<Option<Vote>>,
}

impl View for ReducedTree {
    type V = ReducedTreeView;

    open spec fn view(&self) -> ReducedTreeView {
        ReducedTreeView { nodes: self.nodes@, votes: self.votes@ }
    }
}

/// The tree invariant: rooted at index 0, every other node's parent sits at
/// a strictly smaller index, and roots are unique.
pub open spec fn fc_wf(t: ReducedTreeView) -> bool {
    &&& t.nodes.len() >= 1
    &&& t.nodes[0].parent == 0
    &&& forall|i: int| 1 <= i < t.nodes.len() ==> #[trigger] t.nodes[i].parent < i
    &&& forall|i: int, j: int|
        0 <= i < j < t.nodes.len() ==> #[trigger] t.nodes[i].root != #[trigger] t.nodes[j].root
}

/// Whether node `d` lies in the subtree of node `anc`.
pub open spec fn spec_in_subtree(nodes: Seq<FcNode>, anc: int, d: int) -> bool
    decreases (if 0 <= d { d } else { 0 }),
{
    if d == anc {
        true
    } else if d <= 0 {
        false
    } else if !(0 <= d < nodes.len() && nodes[d].parent < d) {
        false
    } else {
        spec_in_subtree(nodes, anc, nodes[d].parent as int)
    }
}

/// The index of the node carrying `root`, if present.
pub open spec fn spec_find_node(nodes: Seq<FcNode>, root: Hash256) -> Option<int>
    decreases nodes.len(),
{
    if nodes.len() == 0 {
        None
    } else if nodes[0].root == root {
        Some(0)
    } else {
        match spec_find_node(nodes.drop_first(), root) {
            Option::None => None,
            Option::Some(k) => Some(k + 1),
        }
    }
}

pub open spec fn spec_find_node_partial(nodes: Seq<FcNode>, root: Hash256, k: int) -> bool {
    spec_find_node(nodes, root) == (match spec_find_node(nodes.skip(k), root) {
        Option::None => None::<int>,
        Option::Some(j) => Some(j + k),
    })
}

/// A validator's contribution to the weight of node `i`'s subtree.
pub open spec fn spec_vote_contribution(
    t: ReducedTreeView,
    balances: Seq<u64>,
    i: int,
    v: int,
) -> u64 {
    match t.votes[v] {
        Option::None => 0,
        Option::Some(vote) => match spec_find_node(t.nodes, vote.root) {
            Option::None => 0,
            Option::Some(j) => if spec_in_subtree(t.nodes, i, j) {
                if 0 <= v < balances.len() {
                    balances[v]
                } else {
                    0
                }
            } else {
                0
            },
        },
    }
}

/// The weight of node `i`'s subtree: the balances of every validator whose
/// latest vote lies under `i`, summed over the first `upto` validators.
pub open spec fn spec_weight_upto(
    t: ReducedTreeView,
    balances: Seq<u64>,
    i: int,
    upto: int,
) -> u64
    decreases (if upto >= 0 { upto } else { 0 }),
{
    if upto <= 0 {
        0
    } else {
        crate::transition::sat_add(
            spec_weight_upto(t, balances, i, upto - 1),
            spec_vote_contribution(t, balances, i, upto - 1),
        )
    }
}

/// The weight of node `i`'s subtree, saturating at `u64::MAX`.
pub open spec fn spec_node_weight(t: ReducedTreeView, balances: Seq<u64>, i: int) -> u64 {
    spec_weight_upto(t, balances, i, t.votes.len() as int)
}

/// A validator's contribution to the total attesting weight: its balance,
/// when its latest vote names a block in the tree.
pub open spec fn spec_total_contribution(t: ReducedTreeView, balances: Seq<u64>, v: int) -> u64 {
    match t.votes[v] {
        Option::None => 0,
        Option::Some(vote) => match spec_find_node(t.nodes, vote.root) {
            Option::None => 0,
            Option::Some(j) => if 0 <= v < balances.len() {
                balances[v]
            } else {
                0
            },
        },
    }
}

pub open spec fn spec_total_upto(t: ReducedTreeView, balances: Seq<u64>, upto: int) -> u64
    decreases (if upto >= 0 { upto } else { 0 }),
{
    if upto <= 0 {
        0
    } else {
        crate::transition::sat_add(
            spec_total_upto(t, balances, upto - 1),
            spec_total_contribution(t, balances, upto - 1),
        )
    }
}

/// The summed effective balances, saturating at `u64::MAX`, of every
/// validator whose latest vote names a block in the tree.
pub open spec fn spec_total_vote_weight(t: ReducedTreeView, balances: Seq<u64>) -> u64 {
    spec_total_upto(t, balances, t.votes.len() as int)
}

/// A subtree member other than the root descends through its parent.
pub proof fn lemma_subtree_parent_in_subtree(nodes: Seq<FcNode>, anc: int, d: int)
    requires
        spec_in_subtree(nodes, anc, d),
        d != anc,
        0 < d < nodes.len(),
        nodes[d].parent < d,
    ensures
        spec_in_subtree(nodes, anc, nodes[d].parent as int),
{
}

/// A subtree member's index is at least its ancestor's.
pub proof fn lemma_subtree_index_ge(nodes: Seq<FcNode>, anc: int, d: int)
    requires
        forall|i: int| 1 <= i < nodes.len() ==> #[trigger] nodes[i].parent < i,
        0 <= anc,
        spec_in_subtree(nodes, anc, d),
    ensures
        d >= anc,
    decreases (if 0 <= d { d } else { 0 }),
{
    if d != anc && d > 0 && 0 <= d < nodes.len() && nodes[d].parent < d {
        lemma_subtree_index_ge(nodes, anc, nodes[d].parent as int);
    }
}

/// Everything hangs under the root.
pub proof fn lemma_all_in_root_subtree(nodes: Seq<FcNode>, d: int)
    requires
        nodes.len() >= 1,
        forall|i: int| 1 <= i < nodes.len() ==> #[trigger] nodes[i].parent < i,
        0 <= d < nodes.len(),
    ensures
        spec_in_subtree(nodes, 0, d),
    decreases d,
{
    if d > 0 {
        lemma_all_in_root_subtree(nodes, nodes[d].parent as int);
    }
}

/// Weight conservation: the root's subtree weight equals the summed
/// effective balances of the attesting validators — every vote that names a
/// block in the tree weighs the root's subtree, and no vote is counted
/// twice.
pub proof fn lemma_weight_conservation(t: ReducedTreeView, balances: Seq<u64>)
    requires
        fc_wf(t),
    ensures
        spec_node_weight(t, balances, 0) == spec_total_vote_weight(t, balances),
{
    lemma_weight_conservation_upto(t, balances, t.votes.len() as int);
}

proof fn lemma_weight_conservation_upto(t: ReducedTreeView, balances: Seq<u64>, upto: int)
    requires
        fc_wf(t),
        upto <= t.votes.len(),
    ensures
        spec_weight_upto(t, balances, 0, upto) == spec_total_upto(t, balances, upto),
    decreases (if upto >= 0 { upto } else { 0 }),
{
    if upto > 0 {
        lemma_weight_conservation_upto(t, balances, upto - 1);
        let v = upto - 1;
        match t.votes[v] {
            Option::None => {},
            Option::Some(vote) => {
                match spec_find_node(t.nodes, vote.root) {
                    Option::None => {},
                    Option::Some(j) => {
                        lemma_find_node_in_range(t.nodes, vote.root);
                        lemma_all_in_root_subtree(t.nodes, j);
                    },
                }
            },
        }
    }
}

pub proof fn lemma_find_node_in_range(nodes: Seq<FcNode>, root: Hash256)
    requires
        spec_find_node(nodes, root) is Some,
    ensures
        0 <= spec_find_node(nodes, root)->Some_0 < nodes.len(),
        nodes[spec_find_node(nodes, root)->Some_0].root == root,
    decreases nodes.len(),
{
    if nodes.len() > 0 && nodes[0].root != root {
        lemma_find_node_in_range(nodes.drop_first(), root);
        let k = spec_find_node(nodes.drop_first(), root)->Some_0;
        assert(nodes.drop_first()[k] == nodes[k + 1]);
    }
}

// ---------------------------------------------------------------------------
// Head selection (spec)
// ---------------------------------------------------------------------------

/// `j` beats the running best: heavier, or equally heavy with the
/// lexicographically greater root.
pub open spec fn spec_better_child(
    t: ReducedTreeView,
    balances: Seq<u64>,
    j: int,
    best: Option<int>,
) -> bool {
    match best {
        Option::None => true,
        Option::Some(b) => {
            ||| spec_node_weight(t, balances, j) > spec_node_weight(t, balances, b)
            ||| (spec_node_weight(t, balances, j) == spec_node_weight(t, balances, b)
                && Hash256::spec_lex_gt(t.nodes[j].root, t.nodes[b].root))
        },
    }
}

/// Scans indices `j .. len` for children of `cur`, keeping the best.
pub open spec fn spec_best_child_from(
    t: ReducedTreeView,
    balances: Seq<u64>,
    cur: int,
    j: int,
    best: Option<int>,
) -> Option<int>
    decreases (if t.nodes.len() - j >= 0 { t.nodes.len() - j } else { 0 }),
{
    if j >= t.nodes.len() || j < 0 {
        best
    } else {
        let best2 = if cur < j && t.nodes[j].parent == cur && spec_better_child(
            t,
            balances,
            j,
            best,
        ) {
            Some(j)
        } else {
            best
        };
        spec_best_child_from(t, balances, cur, j + 1, best2)
    }
}

pub open spec fn spec_best_child(t: ReducedTreeView, balances: Seq<u64>, cur: int) -> Option<
    int,
> {
    spec_best_child_from(t, balances, cur, cur + 1, None)
}

proof fn lemma_best_child_from_range(
    t: ReducedTreeView,
    balances: Seq<u64>,
    cur: int,
    j: int,
    best: Option<int>,
)
    requires
        best is Some ==> cur < best->Some_0 < t.nodes.len(),
    ensures
        spec_best_child_from(t, balances, cur, j, best) is Some ==> cur < spec_best_child_from(
            t,
            balances,
            cur,
            j,
            best,
        )->Some_0 < t.nodes.len(),
    decreases (if t.nodes.len() - j >= 0 { t.nodes.len() - j } else { 0 }),
{
    if !(j >= t.nodes.len() || j < 0) {
        let best2 = if cur < j && t.nodes[j].parent == cur && spec_better_child(
            t,
            balances,
            j,
            best,
        ) {
            Some(j)
        } else {
            best
        };
        lemma_best_child_from_range(t, balances, cur, j + 1, best2);
    }
}

/// The head reached from `cur`: descend into the best child until a leaf.
pub open spec fn spec_find_head_from(t: ReducedTreeView, balances: Seq<u64>, cur: int) -> int
    decreases (if t.nodes.len() - cur >= 0 { t.nodes.len() - cur } else { 0 }),
{
    match spec_best_child(t, balances, cur) {
        Option::None => cur,
        Option::Some(c) => if cur < c < t.nodes.len() {
            spec_find_head_from(t, balances, c)
        } else {
            cur
        },
    }
}

// ---------------------------------------------------------------------------
// The executable tree
// ---------------------------------------------------------------------------

fn find_node(nodes: &Vec<FcNode>, root: &Hash256) -> (r: Option<usize>)
    ensures
        match r {
            Option::Some(k) => spec_find_node(nodes@, *root) == Some(k as int) && k < nodes@.len(),
            Option::None => spec_find_node(nodes@, *root) is None,
        },
{
    let n = nodes.len();
    let mut k: usize = 0;
    proof {
        assert(nodes@.skip(0) =~= nodes@);
    }
    while k < n
        invariant
            n == nodes@.len(),
            k <= n,
            spec_find_node_partial(nodes@, *root, k as int),
        decreases n - k,
    {
        proof {
            assert(nodes@.skip(k as int).first() == nodes@[k as int]);
            assert(nodes@.skip(k as int).drop_first() =~= nodes@.skip(k + 1));
        }
        if nodes[k].root.eq_root(root) {
            return Some(k);
        }
        k = k + 1;
    }
    proof {
        assert(nodes@.skip(n as int) =~= Seq::<FcNode>::empty());
    }
    None
}

impl ReducedTree {
    /// A tree holding only the finalized block.
    pub fn new(finalized_root: Hash256, finalized_slot: u64) -> (r: ReducedTree)
        ensures
            fc_wf(r@),
            r@.nodes.len() == 1,
            r@.nodes[0] == (FcNode { root: finalized_root, slot: finalized_slot, parent: 0 }),
            r@.votes.len() == 0,
    {
        let mut nodes: Vec<FcNode> = Vec::new();
        nodes.push(FcNode { root: finalized_root, slot: finalized_slot, parent: 0 });
        ReducedTree { nodes, votes: Vec::new() }
    }

    /// Inserts a block under its parent.  A block already present is left
    /// alone; a block with an unknown parent is refused.
    pub fn process_block(&mut self, block_slot: u64, root: Hash256, parent_root: Hash256) -> (r:
        Result<(), ForkChoiceError>)
        requires
            fc_wf(old(self)@),
        ensures
            fc_wf(final(self)@),
            final(self)@.votes == old(self)@.votes,
            ({
                match r {
                    Ok(()) => {
                        if spec_find_node(old(self)@.nodes, root) is Some {
                            final(self)@.nodes == old(self)@.nodes
                        } else {
                            spec_find_node(old(self)@.nodes, parent_root) matches Some(p)
                                && final(self)@.nodes == old(self)@.nodes.push(
                                FcNode { root, slot: block_slot, parent: p as usize },
                            )
                        }
                    },
                    Err(e) => {
                        &&& e == ForkChoiceError::UnknownParent
                        &&& spec_find_node(old(self)@.nodes, root) is None
                        &&& spec_find_node(old(self)@.nodes, parent_root) is None
                        &&& final(self)@.nodes == old(self)@.nodes
                    },
                }
            }),
    {
        if let Some(_) = find_node(&self.nodes, &root) {
            return Ok(());
        }
        match find_node(&self.nodes, &parent_root) {
            Option::None => Err(ForkChoiceError::UnknownParent),
            Option::Some(p) => {
                proof {
                    lemma_find_node_in_range(self@.nodes, parent_root);
                    lemma_find_node_absent(self@.nodes, root);
                }
                self.nodes.push(FcNode { root, slot: block_slot, parent: p });
                Ok(())
            },
        }
    }

    /// Records a validator's latest vote.  A vote for a block no newer than
    /// the validator's current vote is a stale duplicate and is dropped; a
    /// vote for an unknown block is refused.
    pub fn process_attestation(
        &mut self,
        validator_index: usize,
        block_hash: Hash256,
        block_slot: u64,
    ) -> (r: Result<(), ForkChoiceError>)
        requires
            fc_wf(old(self)@),
        ensures
            fc_wf(final(self)@),
            final(self)@.nodes == old(self)@.nodes,
            ({
                match r {
                    Ok(()) => {
                        &&& spec_find_node(old(self)@.nodes, block_hash) is Some
                        &&& if validator_index < old(self)@.votes.len() && (match old(
                            self,
                        )@.votes[validator_index as int] {
                            Option::Some(v) => v.slot >= block_slot,
                            Option::None => false,
                        }) {
                            final(self)@.votes == old(self)@.votes
                        } else {
                            &&& final(self)@.votes.len() as int == (if validator_index + 1 > old(
                                self,
                            )@.votes.len() {
                                (validator_index + 1) as int
                            } else {
                                old(self)@.votes.len() as int
                            })
                            &&& final(self)@.votes[validator_index as int] == Some(
                                Vote { root: block_hash, slot: block_slot },
                            )
                            &&& forall|v: int|
                                0 <= v < final(self)@.votes.len() && v != validator_index
                                    ==> #[trigger] final(self)@.votes[v] == (if v < old(
                                    self,
                                )@.votes.len() {
                                    old(self)@.votes[v]
                                } else {
                                    None
                                })
                        }
                    },
                    Err(e) => {
                        &&& e == ForkChoiceError::UnknownBlock
                        &&& spec_find_node(old(self)@.nodes, block_hash) is None
                        &&& final(self)@.votes == old(self)@.votes
                    },
                }
            }),
    {
        if let Option::None = find_node(&self.nodes, &block_hash) {
            return Err(ForkChoiceError::UnknownBlock);
        }
        if validator_index < self.votes.len() {
            let keep = match &self.votes[validator_index] {
                Option::Some(v) => v.slot >= block_slot,
                Option::None => false,
            };
            if keep {
                return Ok(());
            }
        }
        while self.votes.len() <= validator_index
            invariant
                fc_wf(self@),
                self@.nodes == old(self)@.nodes,
                self@.votes.len() >= old(self)@.votes.len(),
                old(self)@.votes.len() > validator_index ==> self@.votes.len() == old(
                    self,
                )@.votes.len(),
                old(self)@.votes.len() <= validator_index ==> self@.votes.len() <= validator_index
                    + 1,
                forall|v: int|
                    0 <= v < self@.votes.len() ==> #[trigger] self@.votes[v] == (if v < old(
                        self,
                    )@.votes.len() {
                        old(self)@.votes[v]
                    } else {
                        None::<Vote>
                    }),
            decreases validator_index + 1 - self@.votes.len(),
        {
            self.votes.push(None);
        }
        self.votes.set(validator_index, Some(Vote { root: block_hash, slot: block_slot }));
        Ok(())
    }

    /// Whether a block with this root is in the tree.
    pub fn contains_block(&self, root: &Hash256) -> (r: bool)
        ensures
            r == (spec_find_node(self@.nodes, *root) is Some),
    {
        match find_node(&self.nodes, root) {
            Option::Some(_) => true,
            Option::None => false,
        }
    }

    /// The subtree weight of the node at `idx` under the given balances,
    /// saturating at `u64::MAX`.
    #[verifier::loop_isolation(false)]
    pub fn node_weight(&self, idx: usize, balances: &Vec<u64>) -> (r: u64)
        requires
            fc_wf(self@),
            idx < self@.nodes.len(),
        ensures
            r == spec_node_weight(self@, balances@, idx as int),
    {
        let n = self.votes.len();
        let mut total: u64 = 0;
        let mut v: usize = 0;
        while v < n
            invariant
                v <= n,
                total == spec_weight_upto(self@, balances@, idx as int, v as int),
            decreases n - v,
        {
            match &self.votes[v] {
                Option::None => {},
                Option::Some(vote) => {
                    match find_node(&self.nodes, &vote.root) {
                        Option::None => {},
                        Option::Some(j) => {
                            if self.in_subtree(idx, j) {
                                if v < balances.len() {
                                    total = crate::transition::exec_sat_add(total, balances[v]);
                                }
                            }
                        },
                    }
                },
            }
            v = v + 1;
        }
        total
    }

    /// Walks parent links from `d` towards the root, checking for `anc`.
    pub fn in_subtree(&self, anc: usize, d: usize) -> (r: bool)
        requires
            fc_wf(self@),
            anc < self@.nodes.len(),
            d < self@.nodes.len(),
        ensures
            r == spec_in_subtree(self@.nodes, anc as int, d as int),
    {
        let mut cur = d;
        while cur != anc && cur != 0
            invariant
                fc_wf(self@),
                cur < self@.nodes.len(),
                spec_in_subtree(self@.nodes, anc as int, d as int) == spec_in_subtree(
                    self@.nodes,
                    anc as int,
                    cur as int,
                ),
            decreases cur,
        {
            cur = self.nodes[cur].parent;
        }
        cur == anc
    }

    /// The heaviest-descent head from `start_block_root`, ties broken
    /// towards the greater root.
    #[verifier::loop_isolation(false)]
    pub fn find_head(
        &self,
        start_block_slot: u64,
        start_block_root: Hash256,
        balances: &Vec<u64>,
    ) -> (r: Result<Hash256, ForkChoiceError>)
        requires
            fc_wf(self@),
        ensures
            ({
                match r {
                    Ok(root) => spec_find_node(self@.nodes, start_block_root) matches Some(s)
                        && root == self@.nodes[spec_find_head_from(self@, balances@, s)].root,
                    Err(e) => e == ForkChoiceError::UnknownBlock && spec_find_node(
                        self@.nodes,
                        start_block_root,
                    ) is None,
                }
            }),
    {
        let mut cur: usize;
        match find_node(&self.nodes, &start_block_root) {
            Option::None => {
                return Err(ForkChoiceError::UnknownBlock);
            },
            Option::Some(s) => {
                cur = s;
            },
        }
        let ghost start = cur as int;
        loop
            invariant
                fc_wf(self@),
                cur < self@.nodes.len(),
                spec_find_head_from(self@, balances@, start) == spec_find_head_from(
                    self@,
                    balances@,
                    cur as int,
                ),
            decreases self@.nodes.len() - cur,
        {
            let next = self.best_child(cur, balances);
            match next {
                Option::None => {
                    return Ok(self.nodes[cur].root);
                },
                Option::Some(c) => {
                    proof {
                        lemma_best_child_from_range(self@, balances@, cur as int, cur + 1, None);
                    }
                    cur = c;
                },
            }
        }
    }

    /// The best child of `cur`: heaviest subtree, greater root on ties.
    #[verifier::loop_isolation(false)]
    fn best_child(&self, cur: usize, balances: &Vec<u64>) -> (r: Option<usize>)
        requires
            fc_wf(self@),
            cur < self@.nodes.len(),
        ensures
            ({
                match r {
                    Option::Some(c) => spec_best_child(self@, balances@, cur as int) == Some(
                        c as int,
                    ) && cur < c < self@.nodes.len(),
                    Option::None => spec_best_child(self@, balances@, cur as int) is None,
                }
            }),
    {
        let n = self.nodes.len();
        let mut best: Option<usize> = None;
        let mut best_weight: u64 = 0;
        let mut j: usize = cur + 1;
        while j < n
            invariant
                cur + 1 <= j,
                j <= n,
                ({
                    match best {
                        Option::None => true,
                        Option::Some(b) => cur < b < n && best_weight == spec_node_weight(
                            self@,
                            balances@,
                            b as int,
                        ),
                    }
                }),
                spec_best_child(self@, balances@, cur as int) == spec_best_child_from(
                    self@,
                    balances@,
                    cur as int,
                    j as int,
                    match best {
                        Option::None => None::<int>,
                        Option::Some(b) => Some(b as int),
                    },
                ),
            decreases n - j,
        {
            if self.nodes[j].parent == cur {
                let w = self.node_weight(j, balances);
                let take = match best {
                    Option::None => true,
                    Option::Some(b) => w > best_weight || (w == best_weight && self.nodes[j].root.lex_gt(
                        &self.nodes[b].root,
                    )),
                };
                if take {
                    best = Some(j);
                    best_weight = w;
                }
            }
            j = j + 1;
        }
        best
    }

    /// Re-roots the tree at the newly finalized block: only its descendants
    /// survive, and votes for pruned blocks are retargeted to the finalized
    /// block itself.
    #[verifier::loop_isolation(false)]
    pub fn update_finalized_root(&mut self, finalized_slot: u64, finalized_root: Hash256) -> (r:
        Result<(), ForkChoiceError>)
        requires
            fc_wf(old(self)@),
        ensures
            fc_wf(final(self)@),
            ({
                match r {
                    Ok(()) => {
                        &&& spec_find_node(old(self)@.nodes, finalized_root) is Some
                        &&& final(self)@.nodes.len() >= 1
                        &&& final(self)@.nodes[0].root == finalized_root
                        &&& final(self)@.votes.len() == old(self)@.votes.len()
                        &&& forall|i: int|
                            0 <= i < final(self)@.nodes.len() ==> spec_find_node(
                                old(self)@.nodes,
                                #[trigger] final(self)@.nodes[i].root,
                            ) is Some && spec_in_subtree(
                                old(self)@.nodes,
                                spec_find_node(old(self)@.nodes, finalized_root)->Some_0,
                                spec_find_node(old(self)@.nodes, final(self)@.nodes[i].root)->Some_0,
                            )
                        &&& forall|oj: int|
                            0 <= oj < old(self)@.nodes.len() && spec_in_subtree(
                                old(self)@.nodes,
                                spec_find_node(old(self)@.nodes, finalized_root)->Some_0,
                                oj,
                            ) ==> exists|i: int|
                                0 <= i < final(self)@.nodes.len()
                                    && (#[trigger] final(self)@.nodes[i]).root == old(
                                    self,
                                )@.nodes[oj].root
                        &&& forall|v: int|
                            0 <= v < final(self)@.votes.len() ==> ((#[trigger] final(self)@.votes[v]) is Some
                                ==> spec_find_node(
                                final(self)@.nodes,
                                final(self)@.votes[v]->Some_0.root,
                            ) is Some)
                    },
                    Err(e) => {
                        &&& e == ForkChoiceError::UnknownBlock
                        &&& spec_find_node(old(self)@.nodes, finalized_root) is None
                        &&& final(self)@ == old(self)@
                    },
                }
            }),
    {
        let f: usize;
        match find_node(&self.nodes, &finalized_root) {
            Option::None => {
                return Err(ForkChoiceError::UnknownBlock);
            },
            Option::Some(k) => {
                f = k;
            },
        }
        proof {
            lemma_find_node_in_range(self@.nodes, finalized_root);
        }
        let ghost old_nodes = self@.nodes;
        let n = self.nodes.len();
        // Map each old index to its new index, if its node survives.
        let mut index_map: Vec<Option<usize>> = Vec::new();
        let mut new_nodes: Vec<FcNode> = Vec::new();
        new_nodes.push(FcNode { root: self.nodes[f].root, slot: self.nodes[f].slot, parent: 0 });
        let ghost mut srcs: Seq<int> = seq![f as int];
        proof {
            assert(spec_in_subtree(old_nodes, f as int, f as int));
        }
        let mut j: usize = 0;
        while j < n
            invariant
                n == old_nodes.len(),
                self@.nodes == old_nodes,
                j <= n,
                index_map@.len() == j,
                new_nodes@.len() >= 1,
                new_nodes@[0] == (FcNode {
                    root: old_nodes[f as int].root,
                    slot: old_nodes[f as int].slot,
                    parent: 0,
                }),
                new_nodes@[0].parent == 0,
                forall|i: int| 1 <= i < new_nodes@.len() ==> #[trigger] new_nodes@[i].parent < i,
                forall|i: int, i2: int|
                    0 <= i < i2 < new_nodes@.len() ==> #[trigger] new_nodes@[i].root
                        != #[trigger] new_nodes@[i2].root,
                forall|oj: int|
                    0 <= oj < j ==> (#[trigger] index_map@[oj] matches Some(nj) ==> nj
                        < new_nodes@.len()),
                forall|oj: int|
                    0 <= oj < j ==> (#[trigger] index_map@[oj] matches Some(nj)
                        ==> new_nodes@[nj as int].root == old_nodes[oj].root),
                srcs.len() == new_nodes@.len(),
                forall|i: int|
                    0 <= i < new_nodes@.len() ==> 0 <= #[trigger] srcs[i] < n && (srcs[i]
                        == f as int || srcs[i] < j) && new_nodes@[i].root == old_nodes[srcs[i]].root
                        && spec_in_subtree(old_nodes, f as int, srcs[i]),
                forall|oj: int|
                    0 <= oj < j && spec_in_subtree(old_nodes, f as int, oj)
                        ==> (#[trigger] index_map@[oj]) is Some,
                forall|oj: int|
                    0 <= oj < j ==> ((#[trigger] index_map@[oj]) matches Some(nj)
                        ==> nj < new_nodes@.len() && new_nodes@[nj as int].root
                        == old_nodes[oj].root),
            decreases n - j,
        {
            if j == f {
                index_map.push(Some(0));
                proof {
                    assert(spec_in_subtree(old_nodes, f as int, f as int));
                }
            } else {
                let parent = self.nodes[j].parent;
                let mapped: Option<usize> = if j > f && parent < j {
                    match index_map[parent] {
                        Option::Some(p2) => Some(p2),
                        Option::None => None,
                    }
                } else {
                    None
                };
                match mapped {
                    Option::Some(p2) => {
                        let new_idx = new_nodes.len();
                        proof {
                            let oldp = srcs[p2 as int];
                            assert(new_nodes@[p2 as int].root == old_nodes[parent as int].root);
                            assert(old_nodes[oldp].root == old_nodes[parent as int].root);
                            assert(oldp == parent as int);
                            assert(spec_in_subtree(old_nodes, f as int, j as int));
                            let oldj = old_nodes[j as int];
                            assert forall|i: int|
                                0 <= i < new_nodes@.len() implies new_nodes@[i].root
                                != oldj.root by {
                                assert(new_nodes@[i].root == old_nodes[srcs[i]].root);
                                assert(srcs[i] != j as int);
                                assert(old_nodes[srcs[i]].root != oldj.root);
                            }
                            srcs = srcs.push(j as int);
                        }
                        new_nodes.push(
                            FcNode { root: self.nodes[j].root, slot: self.nodes[j].slot, parent: p2 },
                        );
                        index_map.push(Some(new_idx));
                    },
                    Option::None => {
                        proof {
                            if spec_in_subtree(old_nodes, f as int, j as int) {
                                lemma_subtree_parent_in_subtree(old_nodes, f as int, j as int);
                                lemma_subtree_index_ge(old_nodes, f as int, j as int);
                                assert(spec_in_subtree(
                                    old_nodes,
                                    f as int,
                                    old_nodes[j as int].parent as int,
                                ));
                                assert(index_map@[old_nodes[j as int].parent as int] is Some);
                                assert(false);
                            }
                        }
                        index_map.push(None);
                    },
                }
            }
            j = j + 1;
        }
        // Retarget votes: a vote for a pruned block falls back to the
        // finalized block.
        let m = self.votes.len();
        let mut new_votes: Vec<Option<Vote>> = Vec::new();
        let finalized_slot_here = self.nodes[f].slot;
        let mut v: usize = 0;
        while v < m
            invariant
                m == self@.votes.len(),
                v <= m,
                new_votes@.len() == v,
                new_nodes@.len() >= 1,
                new_nodes@[0].root == old_nodes[f as int].root,
                forall|k: int|
                    0 <= k < v ==> (#[trigger] new_votes@[k] is Some ==> spec_find_node(
                        new_nodes@,
                        new_votes@[k]->Some_0.root,
                    ) is Some),
            decreases m - v,
        {
            let nv: Option<Vote> = match &self.votes[v] {
                Option::None => None,
                Option::Some(vote) => {
                    match find_node(&new_nodes, &vote.root) {
                        Option::Some(_) => Some(Vote { root: vote.root, slot: vote.slot }),
                        Option::None => {
                            let fallback = Vote {
                                root: new_nodes[0].root,
                                slot: finalized_slot_here,
                            };
                            proof {
                                lemma_find_node_head(new_nodes@, new_nodes@[0].root);
                            }
                            Some(fallback)
                        },
                    }
                },
            };
            new_votes.push(nv);
            v = v + 1;
        }
        self.nodes = new_nodes;
        self.votes = new_votes;
        proof {
            assert forall|i: int| 0 <= i < self@.nodes.len() implies spec_find_node(
                old_nodes,
                #[trigger] self@.nodes[i].root,
            ) is Some && spec_in_subtree(
                old_nodes,
                f as int,
                spec_find_node(old_nodes, self@.nodes[i].root)->Some_0,
            ) by {
                assert(self@.nodes[i].root == old_nodes[srcs[i]].root);
                lemma_find_node_unique(old_nodes, srcs[i]);
            }
            assert forall|oj: int|
                0 <= oj < old_nodes.len() && spec_in_subtree(old_nodes, f as int, oj) implies exists|i: int|
                0 <= i < self@.nodes.len() && (#[trigger] self@.nodes[i]).root
                == old_nodes[oj].root by {
                assert(index_map@[oj] is Some);
                let nj = index_map@[oj]->Some_0;
                assert(self@.nodes[nj as int].root == old_nodes[oj].root);
            }
        }
        Ok(())
    }
}

/// A present root is found at index 0 when it heads the list.
proof fn lemma_find_node_head(nodes: Seq<FcNode>, root: Hash256)
    requires
        nodes.len() >= 1,
        nodes[0].root == root,
    ensures
        spec_find_node(nodes, root) == Some(0int),
{
}

/// With unique roots, searching for the root of node `j` finds `j`.
proof fn lemma_find_node_unique(nodes: Seq<FcNode>, j: int)
    requires
        0 <= j < nodes.len(),
        forall|i: int, i2: int|
            0 <= i < i2 < nodes.len() ==> #[trigger] nodes[i].root != #[trigger] nodes[i2].root,
    ensures
        spec_find_node(nodes, nodes[j].root) == Some(j),
    decreases j,
{
    if j == 0 {
    } else {
        assert(nodes[0].root != nodes[j].root);
        let rest = nodes.drop_first();
        assert forall|i: int, i2: int|
            0 <= i < i2 < rest.len() implies #[trigger] rest[i].root != #[trigger] rest[i2].root by {
            assert(rest[i] == nodes[i + 1]);
            assert(rest[i2] == nodes[i2 + 1]);
        }
        assert(rest[j - 1] == nodes[j]);
        lemma_find_node_unique(rest, j - 1);
    }
}

/// A root that the search does not find heads no node.
proof fn lemma_find_node_absent(nodes: Seq<FcNode>, root: Hash256)
    requires
        spec_find_node(nodes, root) is None,
    ensures
        forall|i: int| 0 <= i < nodes.len() ==> #[trigger] nodes[i].root != root,
    decreases nodes.len(),
{
    if nodes.len() > 0 {
        lemma_find_node_absent(nodes.drop_first(), root);
        assert forall|i: int| 0 <= i < nodes.len() implies #[trigger] nodes[i].root != root by {
            if i > 0 {
                assert(nodes.drop_first()[i - 1] == nodes[i]);
            }
        }
    }
}

} // verus!
