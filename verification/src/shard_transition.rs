//! Per-slot processing for shard chains, and the period committee cache
//! rebuilt at shard-period boundaries.

use vstd::prelude::*;
use crate::chain_spec::ChainSpec;
use crate::shard_types::ShardState;
use crate::state::BeaconState;

verus! {

#[derive(Clone, Copy, PartialEq, Eq, Structural, Debug)]
pub enum ShardSlotError {
    SlotOverflow,
}

/// Advances the shard state by one slot.  Period processing runs when the
/// next epoch closes a shard period; the shard state model carries no
/// period-scoped fields yet, so the boundary only gates the advance.
pub fn per_shard_slot_processing(state: &mut ShardState, spec: &ChainSpec) -> (r: Result<
    (),
    ShardSlotError,
>)
    requires
        spec.wf(),
    ensures
        ({
            match r {
                Ok(()) => old(state).slot < u64::MAX && *final(state) == (ShardState {
                    slot: (old(state).slot + 1) as u64,
                    ..*old(state)
                }),
                Err(e) => old(state).slot == u64::MAX && e == ShardSlotError::SlotOverflow
                    && *final(state) == *old(state),
            }
        }),
{
    if state.slot == u64::MAX {
        return Err(ShardSlotError::SlotOverflow);
    }
    let epoch = spec.shard_epoch_of(state.slot);
    if epoch < u64::MAX && (epoch + 1) % spec.epochs_per_shard_period == 0 {
        // A shard period closes with the coming epoch; the model keeps no
        // period-scoped state, so there is nothing further to fold in.
    }
    state.slot = state.slot + 1;
    Ok(())
}

#[derive(Clone, Copy, PartialEq, Eq, Structural, Debug)]
pub enum CommitteeError {
    NoPeriodBoundary,
}

/// One shard's committee for a period: the first
/// `target_period_committee_size` members of the shard's crosslink
/// committee, which in this committee model is the registry in index order.
#[derive(Clone, Debug)]
pub struct PeriodCommittee {
    pub shard: u64,
    pub period: u64,
    pub committee: Vec<u64>,
}

pub struct PeriodCommitteeView {
    pub shard: u64,
    pub period: u64,
    pub committee: Seq<u64>,
}

impl View for PeriodCommittee {
    type V = PeriodCommitteeView;

    open spec fn view(&self) -> PeriodCommitteeView {
        PeriodCommitteeView { shard: self.shard, period: self.period, committee: self.committee@ }
    }
}

#[derive(Clone, Debug)]
pub struct PeriodCommitteeCache {
    pub committees: Vec<PeriodCommittee>,
}

/// The committee a period committee holds: member `j` is validator `j`.
pub open spec fn spec_period_committee(
    shard: u64,
    period: u64,
    size: u64,
) -> PeriodCommitteeView {
    PeriodCommitteeView { shard, period, committee: Seq::new(size as nat, |j: int| j as u64) }
}

impl PeriodCommitteeCache {
    /// Builds the period committees of every shard.  Only valid at a
    /// period boundary: the state's current epoch must open a shard period.
    pub fn initialize(state: &BeaconState, spec: &ChainSpec, shard: u64) -> (r: Result<
        PeriodCommitteeCache,
        CommitteeError,
    >)
        requires
            spec.wf(),
            state@.validator_registry.len() >= spec.target_period_committee_size,
        ensures
            ({
                let ce = state@.spec_current_epoch(*spec);
                match r {
                    Ok(cache) => {
                        &&& ce % spec.epochs_per_shard_period == 0
                        &&& cache.committees@.len() == spec.shard_count
                        &&& forall|i: int|
                            0 <= i < cache.committees@.len()
                                ==> #[trigger] cache.committees@[i]@ == spec_period_committee(
                                i as u64,
                                (ce / spec.epochs_per_shard_period) as u64,
                                spec.target_period_committee_size,
                            )
                    },
                    Err(e) => ce % spec.epochs_per_shard_period != 0 && e
                        == CommitteeError::NoPeriodBoundary,
                }
            }),
    {
        let current_epoch = state.current_epoch(spec);
        if current_epoch % spec.epochs_per_shard_period != 0 {
            return Err(CommitteeError::NoPeriodBoundary);
        }
        let period = current_epoch / spec.epochs_per_shard_period;
        let shard_count = spec.shard_count;
        let mut committees: Vec<PeriodCommittee> = Vec::new();
        let mut n: u64 = 0;
        while n < shard_count
            invariant
                n <= shard_count,
                spec.wf(),
                committees@.len() == n,
                forall|i: int|
                    0 <= i < n ==> #[trigger] committees@[i]@ == spec_period_committee(
                        i as u64,
                        period,
                        spec.target_period_committee_size,
                    ),
            decreases shard_count - n,
        {
            let size = spec.target_period_committee_size;
            let mut committee: Vec<u64> = Vec::new();
            let mut j: u64 = 0;
            while j < size
                invariant
                    j <= size,
                    committee@.len() == j,
                    forall|k: int| 0 <= k < j ==> #[trigger] committee@[k] == k as u64,
                decreases size - j,
            {
                committee.push(j);
                j = j + 1;
            }
            let pc = PeriodCommittee { shard: n, period, committee };
            proof {
                assert(pc@.committee =~= spec_period_committee(
                    n,
                    period,
                    spec.target_period_committee_size,
                ).committee);
            }
            committees.push(pc);
            n = n + 1;
        }
        Ok(PeriodCommitteeCache { committees })
    }
}

} // verus!
