//! Immutable protocol constants: slot and epoch geometry, per-block object
//! bounds, balance parameters and signing-domain tags.

use vstd::prelude::*;
use crate::hash256::Hash256;

verus! {

/// A 4-byte-tag equivalent mixed into signatures so that signatures of one
/// kind cannot be replayed as another.
#[derive(Clone, Copy, PartialEq, Eq, Structural, Debug)]
pub enum Domain {
    BeaconProposer,
    Randao,
    Attestation,
    Deposit,
    VoluntaryExit,
    Transfer,
    ShardProposer,
    ShardAttestation,
}

impl Domain {
    pub open spec fn spec_tag(self) -> u64 {
        match self {
            Domain::BeaconProposer => 0,
            Domain::Randao => 1,
            Domain::Attestation => 2,
            Domain::Deposit => 3,
            Domain::VoluntaryExit => 4,
            Domain::Transfer => 5,
            Domain::ShardProposer => 6,
            Domain::ShardAttestation => 7,
        }
    }

    pub fn tag(self) -> (r: u64)
        ensures
            r == self.spec_tag(),
    {
        match self {
            Domain::BeaconProposer => 0,
            Domain::Randao => 1,
            Domain::Attestation => 2,
            Domain::Deposit => 3,
            Domain::VoluntaryExit => 4,
            Domain::Transfer => 5,
            Domain::ShardProposer => 6,
            Domain::ShardAttestation => 7,
        }
    }
}

#[derive(Clone, Copy, PartialEq, Eq, Structural, Debug)]
pub struct ChainSpec {
    pub genesis_slot: u64,
    pub slots_per_epoch: u64,
    pub shard_slots_per_beacon_slot: u64,
    pub epochs_per_shard_period: u64,
    pub target_period_committee_size: u64,
    pub slots_per_eth1_voting_period: u64,
    pub latest_randao_mixes_length: u64,
    pub max_proposer_slashings: u64,
    pub max_attester_slashings: u64,
    pub max_attestations: u64,
    pub max_deposits: u64,
    pub max_voluntary_exits: u64,
    pub max_transfers: u64,
    pub deposit_contract_tree_depth: u64,
    pub far_future_epoch: u64,
    pub effective_balance_increment: u64,
    pub max_effective_balance: u64,
    pub whistleblowing_reward_quotient: u64,
    pub latest_slashed_exit_length: u64,
    pub activation_exit_delay: u64,
    pub min_validator_withdrawability_delay: u64,
    pub min_attestation_inclusion_delay: u64,
    pub milliseconds_per_slot: u64,
    pub phase_1_fork_slot: u64,
    pub zero_hash: Hash256,
    pub shard_count: u64,
}

impl ChainSpec {
    /// The constraints every well-formed constant set obeys; all chain and
    /// state reasoning assumes them.
    pub open spec fn wf(self) -> bool {
        &&& self.genesis_slot == 0
        &&& 1 <= self.slots_per_epoch
        &&& 1 <= self.shard_slots_per_beacon_slot
        &&& 1 <= self.epochs_per_shard_period
        &&& 1 <= self.slots_per_eth1_voting_period
        &&& 1 <= self.latest_randao_mixes_length
        &&& 1 <= self.effective_balance_increment
        &&& 1 <= self.whistleblowing_reward_quotient
        &&& 1 <= self.shard_count
        &&& self.deposit_contract_tree_depth <= 32
        &&& self.far_future_epoch == u64::MAX
        &&& self.zero_hash == Hash256::spec_zero()
    }

    /// Checks the well-formedness constraints at runtime, for constant
    /// sets supplied from outside.
    pub fn check_wf(&self) -> (r: bool)
        ensures
            r == self.wf(),
    {
        self.genesis_slot == 0 && 1 <= self.slots_per_epoch && 1 <= self.shard_slots_per_beacon_slot
            && 1 <= self.epochs_per_shard_period && 1 <= self.slots_per_eth1_voting_period && 1
            <= self.latest_randao_mixes_length && 1 <= self.effective_balance_increment && 1
            <= self.whistleblowing_reward_quotient && 1 <= self.shard_count
            && self.deposit_contract_tree_depth <= 32 && self.far_future_epoch == u64::MAX
            && self.zero_hash.is_zero()
    }

    /// The small constant set used by local testnets.
    pub fn minimal() -> (r: ChainSpec)
        ensures
            r.wf(),
            r.slots_per_epoch == 8,
            r.max_deposits == 16,
            r.slots_per_eth1_voting_period == 16,
    {
        ChainSpec {
            genesis_slot: 0,
            slots_per_epoch: 8,
            shard_slots_per_beacon_slot: 2,
            epochs_per_shard_period: 4,
            target_period_committee_size: 4,
            slots_per_eth1_voting_period: 16,
            latest_randao_mixes_length: 64,
            max_proposer_slashings: 16,
            max_attester_slashings: 1,
            max_attestations: 128,
            max_deposits: 16,
            max_voluntary_exits: 16,
            max_transfers: 16,
            deposit_contract_tree_depth: 32,
            far_future_epoch: u64::MAX,
            effective_balance_increment: 1000000000,
            max_effective_balance: 32000000000,
            whistleblowing_reward_quotient: 512,
            latest_slashed_exit_length: 64,
            activation_exit_delay: 4,
            min_validator_withdrawability_delay: 256,
            min_attestation_inclusion_delay: 1,
            milliseconds_per_slot: 6000,
            phase_1_fork_slot: 0,
            zero_hash: Hash256 { l0: 0, l1: 0, l2: 0, l3: 0 },
            shard_count: 8,
        }
    }

    /// The epoch a beacon slot belongs to.
    pub open spec fn spec_epoch_of(self, slot: u64) -> u64
        recommends
            self.wf(),
    {
        (slot / self.slots_per_epoch) as u64
    }

    pub fn epoch_of(&self, slot: u64) -> (r: u64)
        requires
            self.wf(),
        ensures
            r == self.spec_epoch_of(slot),
    {
        slot / self.slots_per_epoch
    }

    /// The first beacon slot of an epoch, saturating at `u64::MAX`.
    pub open spec fn spec_start_slot_of_epoch(self, epoch: u64) -> u64
        recommends
            self.wf(),
    {
        if epoch * self.slots_per_epoch <= u64::MAX {
            (epoch * self.slots_per_epoch) as u64
        } else {
            u64::MAX
        }
    }

    pub fn start_slot_of_epoch(&self, epoch: u64) -> (r: u64)
        requires
            self.wf(),
        ensures
            r == self.spec_start_slot_of_epoch(epoch),
    {
        match epoch.checked_mul(self.slots_per_epoch) {
            Some(slot) => slot,
            None => u64::MAX,
        }
    }

    /// The epoch a shard slot belongs to: shard chains run
    /// `shard_slots_per_beacon_slot` times faster than the beacon chain.
    pub open spec fn spec_shard_epoch_of(self, shard_slot: u64) -> u64
        recommends
            self.wf(),
    {
        ((shard_slot / self.shard_slots_per_beacon_slot) / self.slots_per_epoch) as u64
    }

    pub fn shard_epoch_of(&self, shard_slot: u64) -> (r: u64)
        requires
            self.wf(),
        ensures
            r == self.spec_shard_epoch_of(shard_slot),
    {
        (shard_slot / self.shard_slots_per_beacon_slot) / self.slots_per_epoch
    }
}

} // verus!
