//! The beacon state: the registry, balances, per-epoch attestation buffers
//! and the justification/finalization bookkeeping.

use vstd::prelude::*;
use crate::chain_spec::ChainSpec;
use crate::hash256::Hash256;
use crate::types::{
    BeaconBlockHeader, Eth1Data, Fork, PendingAttestation, PendingAttestationView, Validator,
};

verus! {

pub struct BeaconState {
    pub slot: u64,
    pub genesis_time: u64,
    pub fork: Fork,
    pub validator_registry: Vec<Validator>,
    pub balances: Vec<u64>,
    pub latest_block_header: BeaconBlockHeader,
    pub latest_randao_mixes: Vec<Hash256>,
    pub latest_eth1_data: Eth1Data,
    pub eth1_data_votes: Vec<Eth1Data>,
    pub deposit_index: u64,
    pub current_epoch_attestations: Vec<PendingAttestation>,
    pub previous_epoch_attestations: Vec<PendingAttestation>,
    pub previous_justified_epoch: u64,
    pub previous_justified_root: Hash256,
    pub current_justified_epoch: u64,
    pub current_justified_root: Hash256,
    pub justification_bitfield: u64,
    pub finalized_epoch: u64,
    pub finalized_root: Hash256,
}

pub struct BeaconStateView {
    pub slot: u64,
    pub genesis_time: u64,
    pub fork: Fork,
    pub validator_registry: Seq<Validator>,
    pub balances: Seq<u64>,
    pub latest_block_header: BeaconBlockHeader,
    pub latest_randao_mixes: Seq<Hash256>,
    pub latest_eth1_data: Eth1Data,
    pub eth1_data_votes: Seq<Eth1Data>,
    pub deposit_index: u64,
    pub current_epoch_attestations: Seq<PendingAttestationView>,
    pub previous_epoch_attestations: Seq<PendingAttestationView>,
    pub previous_justified_epoch: u64,
    pub previous_justified_root: Hash256,
    pub current_justified_epoch: u64,
    pub current_justified_root: Hash256,
    pub justification_bitfield: u64,
    pub finalized_epoch: u64,
    pub finalized_root: Hash256,
}

impl View for BeaconState {
    type V = BeaconStateView;

    open spec fn view(&self) -> BeaconStateView {
        BeaconStateView {
            slot: self.slot,
            genesis_time: self.genesis_time,
            fork: self.fork,
            validator_registry: self.validator_registry@,
            balances: self.balances@,
            latest_block_header: self.latest_block_header,
            latest_randao_mixes: self.latest_randao_mixes@,
            latest_eth1_data: self.latest_eth1_data,
            eth1_data_votes: self.eth1_data_votes@,
            deposit_index: self.deposit_index,
            current_epoch_attestations: Seq::new(
                self.current_epoch_attestations@.len(),
                |i: int| self.current_epoch_attestations@[i]@,
            ),
            previous_epoch_attestations: Seq::new(
                self.previous_epoch_attestations@.len(),
                |i: int| self.previous_epoch_attestations@[i]@,
            ),
            previous_justified_epoch: self.previous_justified_epoch,
            previous_justified_root: self.previous_justified_root,
            current_justified_epoch: self.current_justified_epoch,
            current_justified_root: self.current_justified_root,
            justification_bitfield: self.justification_bitfield,
            finalized_epoch: self.finalized_epoch,
            finalized_root: self.finalized_root,
        }
    }
}

impl BeaconStateView {
    pub open spec fn spec_current_epoch(self, spec: ChainSpec) -> u64
        recommends
            spec.wf(),
    {
        spec.spec_epoch_of(self.slot)
    }

    pub open spec fn spec_previous_epoch(self, spec: ChainSpec) -> u64
        recommends
            spec.wf(),
    {
        if self.spec_current_epoch(spec) == 0 {
            0
        } else {
            (self.spec_current_epoch(spec) - 1) as u64
        }
    }

    /// The structural invariant of a beacon state: the registry and the
    /// balances run in parallel, the randao mix ring has its fixed length,
    /// and the justification chain never runs ahead of the clock nor behind
    /// finality.
    pub open spec fn wf(self, spec: ChainSpec) -> bool {
        &&& self.fork.wf()
        &&& self.validator_registry.len() == self.balances.len()
        &&& self.validator_registry.len() <= u64::MAX
        &&& self.latest_randao_mixes.len() == spec.latest_randao_mixes_length
        &&& self.finalized_epoch <= self.previous_justified_epoch
        &&& self.previous_justified_epoch <= self.current_justified_epoch
        &&& self.current_justified_epoch <= self.spec_current_epoch(spec)
    }
}

impl BeaconState {
    pub fn current_epoch(&self, spec: &ChainSpec) -> (r: u64)
        requires
            spec.wf(),
        ensures
            r == self@.spec_current_epoch(*spec),
    {
        spec.epoch_of(self.slot)
    }

    pub fn previous_epoch(&self, spec: &ChainSpec) -> (r: u64)
        requires
            spec.wf(),
        ensures
            r == self@.spec_previous_epoch(*spec),
    {
        let ce = self.current_epoch(spec);
        if ce == 0 {
            0
        } else {
            ce - 1
        }
    }

    /// The number of validators, which is also every committee's size in
    /// this model.
    pub fn validator_count(&self) -> (r: usize)
        ensures
            r == self@.validator_registry.len(),
    {
        self.validator_registry.len()
    }
}

} // verus!
