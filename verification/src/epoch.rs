//! Per-slot processing: slot advance, and at epoch boundaries the
//! justification and finalization bookkeeping driven by the attestation
//! buffers.  Finalization never moves backwards.

use vstd::prelude::*;
use crate::beacon_codec::spec_header_signed_root;
use crate::chain_spec::ChainSpec;
use crate::hash256::Hash256;
use crate::state::{BeaconState, BeaconStateView};
use crate::transition::{exec_sat_add, sat_add, st_pre};
use crate::types::{PendingAttestationView, Validator};

verus! {

#[derive(Clone, Copy, PartialEq, Eq, Structural, Debug)]
pub enum SlotError {
    SlotOverflow,
}

/// Validator `v` is marked in some pending attestation's signer set.
pub open spec fn spec_voted(atts: Seq<PendingAttestationView>, v: int) -> bool {
    exists|k: int| 0 <= k < atts.len() && v < #[trigger] atts[k].bits.len() && atts[k].bits[v]
}

/// The summed effective balance, saturating at `u64::MAX`, of the first
/// `upto` validators that attested in the buffer.
pub open spec fn spec_attesting_balance_upto(
    regs: Seq<Validator>,
    atts: Seq<PendingAttestationView>,
    upto: int,
) -> u64
    decreases (if upto >= 0 { upto } else { 0 }),
{
    if upto <= 0 {
        0
    } else {
        let rest = spec_attesting_balance_upto(regs, atts, upto - 1);
        if spec_voted(atts, upto - 1) {
            sat_add(rest, regs[upto - 1].effective_balance)
        } else {
            rest
        }
    }
}

pub open spec fn spec_attesting_balance(
    regs: Seq<Validator>,
    atts: Seq<PendingAttestationView>,
) -> u64 {
    spec_attesting_balance_upto(regs, atts, regs.len() as int)
}

/// The summed effective balance, saturating at `u64::MAX`, of the first
/// `upto` validators active by `epoch`.
pub open spec fn spec_total_balance_upto(regs: Seq<Validator>, epoch: u64, upto: int) -> u64
    decreases (if upto >= 0 { upto } else { 0 }),
{
    if upto <= 0 {
        0
    } else {
        let rest = spec_total_balance_upto(regs, epoch, upto - 1);
        if regs[upto - 1].activation_epoch <= epoch {
            sat_add(rest, regs[upto - 1].effective_balance)
        } else {
            rest
        }
    }
}

pub open spec fn spec_total_balance(regs: Seq<Validator>, epoch: u64) -> u64 {
    spec_total_balance_upto(regs, epoch, regs.len() as int)
}

/// A two-thirds supermajority of the active balance attested.
pub open spec fn spec_supermajority(attesting: u64, total: u64) -> bool {
    total > 0 && 3 * attesting >= 2 * total
}

/// The justification and finalization step run when the state leaves epoch
/// `ce`.  The justified and finalized epochs only move forward; the
/// justified root is the root of the latest block header.
pub open spec fn spec_epoch_bookkeeping(v: BeaconStateView, cs: ChainSpec) -> BeaconStateView
    recommends
        cs.wf(),
{
    let ce = v.spec_current_epoch(cs);
    let pe = v.spec_previous_epoch(cs);
    let jroot = spec_header_signed_root(v.latest_block_header);
    let total = spec_total_balance(v.validator_registry, ce);
    let prev_att = spec_attesting_balance(v.validator_registry, v.previous_epoch_attestations);
    let curr_att = spec_attesting_balance(v.validator_registry, v.current_epoch_attestations);
    let bits0 = (2 * (v.justification_bitfield % 0x8000000000000000u64)) as u64;
    let prev_just = spec_supermajority(prev_att, total);
    let curr_just = spec_supermajority(curr_att, total);
    let bits1 = if prev_just {
        (bits0 - bits0 % 4 + bits0 % 2 + 2) as u64
    } else {
        bits0
    };
    let bits2 = if curr_just {
        (bits1 - bits1 % 2 + 1) as u64
    } else {
        bits1
    };
    let new_pj_epoch = v.current_justified_epoch;
    let new_pj_root = v.current_justified_root;
    let new_cj_epoch = if curr_just {
        if ce > v.current_justified_epoch {
            ce
        } else {
            v.current_justified_epoch
        }
    } else if prev_just {
        if pe > v.current_justified_epoch {
            pe
        } else {
            v.current_justified_epoch
        }
    } else {
        v.current_justified_epoch
    };
    let new_cj_root = if (curr_just && ce > v.current_justified_epoch) || (!curr_just && prev_just
        && pe > v.current_justified_epoch) {
        jroot
    } else {
        v.current_justified_root
    };
    let fin_candidate: Option<(u64, Hash256)> = if bits2 % 8 == 7 && ce >= 2
        && v.current_justified_epoch + 2 == ce {
        Some((v.current_justified_epoch, v.current_justified_root))
    } else if bits2 % 4 == 3 && ce >= 1 && v.current_justified_epoch + 1 == ce {
        Some((v.current_justified_epoch, v.current_justified_root))
    } else if bits2 % 16 >= 14 && ce >= 3 && v.previous_justified_epoch + 3 == ce {
        Some((v.previous_justified_epoch, v.previous_justified_root))
    } else if bits2 % 8 >= 6 && ce >= 2 && v.previous_justified_epoch + 2 == ce {
        Some((v.previous_justified_epoch, v.previous_justified_root))
    } else {
        None
    };
    let (new_fin_epoch, new_fin_root) = match fin_candidate {
        Option::Some((e, r)) => if e > v.finalized_epoch {
            (e, r)
        } else {
            (v.finalized_epoch, v.finalized_root)
        },
        Option::None => (v.finalized_epoch, v.finalized_root),
    };
    BeaconStateView {
        previous_justified_epoch: new_pj_epoch,
        previous_justified_root: new_pj_root,
        current_justified_epoch: new_cj_epoch,
        current_justified_root: new_cj_root,
        justification_bitfield: bits2,
        finalized_epoch: new_fin_epoch,
        finalized_root: new_fin_root,
        previous_epoch_attestations: v.current_epoch_attestations,
        current_epoch_attestations: Seq::empty(),
        ..v
    }
}

/// One slot of housekeeping: at an epoch's last slot the justification and
/// finalization bookkeeping runs and the attestation buffers rotate; the
/// slot then advances.
pub open spec fn spec_per_slot(v: BeaconStateView, cs: ChainSpec) -> BeaconStateView
    recommends
        cs.wf(),
        v.slot < u64::MAX,
{
    let v1 = if (v.slot + 1) as u64 % cs.slots_per_epoch == 0 {
        spec_epoch_bookkeeping(v, cs)
    } else {
        v
    };
    BeaconStateView { slot: (v.slot + 1) as u64, ..v1 }
}

fn attesting_balance(
    regs: &Vec<Validator>,
    atts: &Vec<crate::types::PendingAttestation>,
) -> (r: u64)
    ensures
        r == spec_attesting_balance_upto(
            regs@,
            Seq::new(atts@.len(), |k: int| atts@[k]@),
            regs@.len() as int,
        ),
{
    let ghost att_views = Seq::new(atts@.len(), |k: int| atts@[k]@);
    let n = regs.len();
    let m = atts.len();
    let mut total: u64 = 0;
    let mut v: usize = 0;
    while v < n
        invariant
            n == regs@.len(),
            m == atts@.len(),
            att_views == Seq::new(atts@.len(), |k: int| atts@[k]@),
            v <= n,
            total == spec_attesting_balance_upto(regs@, att_views, v as int),
        decreases n - v,
    {
        let mut voted = false;
        let mut k: usize = 0;
        while k < m
            invariant
                m == atts@.len(),
                att_views == Seq::new(atts@.len(), |k2: int| atts@[k2]@),
                k <= m,
                v < n,
                n == regs@.len(),
                voted ==> spec_voted(att_views, v as int),
                !voted ==> forall|k2: int|
                    0 <= k2 < k ==> !(v < #[trigger] att_views[k2].bits.len()
                        && att_views[k2].bits[v as int]),
            decreases m - k,
        {
            let bits = &atts[k].aggregation_bitfield;
            if v < bits.len() {
                if bits.get(v) {
                    proof {
                        assert(v < att_views[k as int].bits.len() && att_views[k as int].bits[v as int]);
                    }
                    voted = true;
                }
            }
            k = k + 1;
        }
        proof {
            if !voted {
                assert(!spec_voted(att_views, v as int));
            }
        }
        if voted {
            total = exec_sat_add(total, regs[v].effective_balance);
        }
        v = v + 1;
    }
    total
}

fn total_balance(regs: &Vec<Validator>, epoch: u64) -> (r: u64)
    ensures
        r == spec_total_balance_upto(regs@, epoch, regs@.len() as int),
{
    let n = regs.len();
    let mut total: u64 = 0;
    let mut v: usize = 0;
    while v < n
        invariant
            n == regs@.len(),
            v <= n,
            total == spec_total_balance_upto(regs@, epoch, v as int),
        decreases n - v,
    {
        if regs[v].activation_epoch <= epoch {
            total = exec_sat_add(total, regs[v].effective_balance);
        }
        v = v + 1;
    }
    total
}

/// Advances the state by one slot, running the epoch bookkeeping when the
/// state sits in an epoch's last slot.  The finalized epoch never
/// decreases.
#[verifier::rlimit(100)]
pub fn per_slot_processing(state: &mut BeaconState, spec: &ChainSpec) -> (r: Result<(), SlotError>)
    requires
        st_pre(old(state)@, *spec),
    ensures
        ({
            match r {
                Ok(()) => {
                    &&& old(state)@.slot < u64::MAX
                    &&& final(state)@ == spec_per_slot(old(state)@, *spec)
                    &&& final(state)@.finalized_epoch >= old(state)@.finalized_epoch
                    &&& st_pre(final(state)@, *spec)
                },
                Err(e) => {
                    &&& e == SlotError::SlotOverflow
                    &&& old(state)@.slot == u64::MAX
                    &&& final(state)@ == old(state)@
                },
            }
        }),
{
    if state.slot == u64::MAX {
        return Err(SlotError::SlotOverflow);
    }
    if (state.slot + 1) % spec.slots_per_epoch == 0 {
        let ce = state.current_epoch(spec);
        let pe = state.previous_epoch(spec);
        let jroot = crate::beacon_codec::header_signed_root(&state.latest_block_header);
        let total = total_balance(&state.validator_registry, ce);
        let prev_att = attesting_balance(
            &state.validator_registry,
            &state.previous_epoch_attestations,
        );
        let curr_att = attesting_balance(
            &state.validator_registry,
            &state.current_epoch_attestations,
        );
        let bits0 = 2 * (state.justification_bitfield % 0x8000000000000000u64);
        let prev_just = total > 0 && {
            let a3 = (prev_att as u128) * 3;
            let t2 = (total as u128) * 2;
            a3 >= t2
        };
        let curr_just = total > 0 && {
            let a3 = (curr_att as u128) * 3;
            let t2 = (total as u128) * 2;
            a3 >= t2
        };
        let bits1 = if prev_just {
            bits0 - bits0 % 4 + bits0 % 2 + 2
        } else {
            bits0
        };
        let bits2 = if curr_just {
            bits1 - bits1 % 2 + 1
        } else {
            bits1
        };
        let old_pj_epoch = state.previous_justified_epoch;
        let old_pj_root = state.previous_justified_root;
        let old_cj_epoch = state.current_justified_epoch;
        let old_cj_root = state.current_justified_root;
        state.previous_justified_epoch = old_cj_epoch;
        state.previous_justified_root = old_cj_root;
        if curr_just && ce > old_cj_epoch {
            state.current_justified_epoch = ce;
            state.current_justified_root = jroot;
        } else if !curr_just && prev_just && pe > old_cj_epoch {
            state.current_justified_epoch = pe;
            state.current_justified_root = jroot;
        }
        state.justification_bitfield = bits2;
        let fin: Option<(u64, Hash256)> = if bits2 % 8 == 7 && ce >= 2 && old_cj_epoch == ce - 2 {
            Some((old_cj_epoch, old_cj_root))
        } else if bits2 % 4 == 3 && ce >= 1 && old_cj_epoch == ce - 1 {
            Some((old_cj_epoch, old_cj_root))
        } else if bits2 % 16 >= 14 && ce >= 3 && old_pj_epoch == ce - 3 {
            Some((old_pj_epoch, old_pj_root))
        } else if bits2 % 8 >= 6 && ce >= 2 && old_pj_epoch == ce - 2 {
            Some((old_pj_epoch, old_pj_root))
        } else {
            None
        };
        match fin {
            Option::Some((e, root)) => {
                if e > state.finalized_epoch {
                    state.finalized_epoch = e;
                    state.finalized_root = root;
                }
            },
            Option::None => {},
        }
        let mut rotated: Vec<crate::types::PendingAttestation> = Vec::new();
        core::mem::swap(&mut rotated, &mut state.current_epoch_attestations);
        state.previous_epoch_attestations = rotated;
        proof {
            assert(Seq::new(
                state@.current_epoch_attestations.len(),
                |k: int| state@.current_epoch_attestations[k],
            ) =~= Seq::<PendingAttestationView>::empty());
        }
        let ghost pre_slot = state@.slot;
        state.slot = state.slot + 1;
        proof {
            vstd::arithmetic::div_mod::lemma_div_is_ordered(
                pre_slot as int,
                state@.slot as int,
                spec.slots_per_epoch as int,
            );
            assert(state@.current_epoch_attestations =~= Seq::<PendingAttestationView>::empty());
            assert(state@ == spec_per_slot(old(state)@, *spec));
        }
        Ok(())
    } else {
        let ghost pre_slot = state@.slot;
        state.slot = state.slot + 1;
        proof {
            vstd::arithmetic::div_mod::lemma_div_is_ordered(
                pre_slot as int,
                state@.slot as int,
                spec.slots_per_epoch as int,
            );
        }
        Ok(())
    }
}

} // verus!
