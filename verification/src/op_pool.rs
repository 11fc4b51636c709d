//! The aggregating attestation pool: a keyed multiset of shard
//! attestations, each bucket a list of aggregates for one attestation-data
//! identity and signing domain.

use vstd::prelude::*;
use crate::bytes_util::{bytes_eq, copy_bytes, push_u64_be, spec_u64_be};
use crate::chain_spec::{ChainSpec, Domain};
use crate::codec::{en_att_data, encode_att_data, lemma_en_att_data_injective};
use crate::shard_types::{
    duplicate_attestations, ShardAttestation, ShardAttestationData, ShardAttestationView,
    ShardState,
};
use crate::state::BeaconState;
use crate::types::{get_domain, spec_count_set, spec_disjoint, spec_get_domain, spec_union, Fork};

verus! {

// ---------------------------------------------------------------------------
// Attestation identity
// ---------------------------------------------------------------------------

/// The pool key: the encoded attestation data followed by the 16-byte
/// domain suffix (signing domain and attesting slot).
pub struct AttestationId {
    pub bytes: Vec<u8>,
}

impl View for AttestationId {
    type V = Seq<u8>;

    open spec fn view(&self) -> Seq<u8> {
        self.bytes@
    }
}

/// The domain suffix for an attestation at `slot` in `epoch`.
pub open spec fn spec_domain_bytes(fork: Fork, epoch: u64, slot: u64) -> Seq<u8> {
    spec_u64_be(spec_get_domain(fork, epoch, Domain::ShardAttestation)) + spec_u64_be(slot)
}

/// The identity of `data` under `fork`: equal identities mean equal data.
pub open spec fn spec_id_of(data: ShardAttestationData, fork: Fork, spec: ChainSpec) -> Seq<u8>
    recommends
        spec.wf(),
{
    en_att_data(data) + spec_domain_bytes(fork, spec.spec_shard_epoch_of(data.target_slot), data.target_slot)
}

impl AttestationId {
    /// The domain suffix an attestation must carry to be includable for an
    /// attesting slot.
    pub fn compute_domain_bytes(
        epoch: u64,
        slot: u64,
        beacon_state: &BeaconState,
        spec: &ChainSpec,
    ) -> (r: Vec<u8>)
        requires
            spec.wf(),
            beacon_state@.fork.wf(),
        ensures
            r@ == spec_domain_bytes(beacon_state@.fork, epoch, slot),
    {
        let domain = get_domain(&beacon_state.fork, epoch, Domain::ShardAttestation);
        let mut out: Vec<u8> = Vec::new();
        push_u64_be(&mut out, domain);
        push_u64_be(&mut out, slot);
        out
    }

    /// The pool key of `data`.
    pub fn from_data(
        data: &ShardAttestationData,
        beacon_state: &BeaconState,
        spec: &ChainSpec,
    ) -> (r: AttestationId)
        requires
            spec.wf(),
            beacon_state@.fork.wf(),
        ensures
            r@ == spec_id_of(*data, beacon_state@.fork, *spec),
    {
        let epoch = spec.shard_epoch_of(data.target_slot);
        let mut bytes = encode_att_data(data);
        let suffix = Self::compute_domain_bytes(epoch, data.target_slot, beacon_state, spec);
        let mut i: usize = 0;
        while i < suffix.len()
            invariant
                i <= suffix@.len(),
                bytes@ == en_att_data(*data) + suffix@.take(i as int),
            decreases suffix@.len() - i,
        {
            proof {
                assert(en_att_data(*data) + suffix@.take(i + 1) =~= (en_att_data(*data)
                    + suffix@.take(i as int)).push(suffix@[i as int]));
            }
            bytes.push(suffix[i]);
            i = i + 1;
        }
        proof {
            assert(suffix@.take(suffix@.len() as int) =~= suffix@);
        }
        AttestationId { bytes }
    }

    /// Whether this key ends with the given 16-byte domain suffix.
    pub fn domain_bytes_match(&self, domain_bytes: &Vec<u8>) -> (r: bool)
        ensures
            r == spec_suffix_match(self@, domain_bytes@),
    {
        let n = self.bytes.len();
        let m = domain_bytes.len();
        if n < m {
            return false;
        }
        let mut i: usize = 0;
        while i < m
            invariant
                n == self@.len(),
                m == domain_bytes@.len(),
                m <= n,
                i <= m,
                forall|j: int| 0 <= j < i ==> self@[n - m + j] == domain_bytes@[j],
            decreases m - i,
        {
            if self.bytes[n - m + i] != domain_bytes[i] {
                return false;
            }
            i = i + 1;
        }
        proof {
            assert(self@.subrange(n - m, n as int) =~= domain_bytes@);
        }
        true
    }
}

/// `s` ends with `suffix`.
pub open spec fn spec_suffix_match(s: Seq<u8>, suffix: Seq<u8>) -> bool {
    s.len() >= suffix.len() && s.subrange(s.len() - suffix.len(), s.len() as int) == suffix
}

// ---------------------------------------------------------------------------
// The pool
// ---------------------------------------------------------------------------

pub struct PoolBucket {
    pub id: AttestationId,
    pub atts: Vec<ShardAttestation>,
}

pub struct PoolBucketView {
    pub id: Seq<u8>,
    pub atts: Seq<ShardAttestationView>,
}

impl View for PoolBucket {
    type V = PoolBucketView;

    open spec fn view(&self) -> PoolBucketView {
        PoolBucketView {
            id: self.id@,
            atts: Seq::new(self.atts@.len(), |i: int| self.atts@[i]@),
        }
    }
}

/// A keyed, aggregating multiset of attestations, and — separately — the
/// most recent block body handed to the proposer.
pub struct OperationPool {
    pub buckets: Vec<PoolBucket>,
    pub body: Vec<u8>,
}

pub struct OperationPoolView {
    pub buckets: Seq<PoolBucketView>,
    pub body: Seq<u8>,
}

impl View for OperationPool {
    type V = OperationPoolView;

    open spec fn view(&self) -> OperationPoolView {
        OperationPoolView {
            buckets: Seq::new(self.buckets@.len(), |i: int| self.buckets@[i]@),
            body: self.body@,
        }
    }
}

/// The pool invariant: keys are unique, buckets are non-empty, and every
/// attestation in a bucket encodes to the data prefix of the bucket's key —
/// so all attestations of one bucket carry the same data.
pub open spec fn pool_wf(buckets: Seq<PoolBucketView>) -> bool {
    &&& forall|i: int, j: int|
        0 <= i < j < buckets.len() ==> #[trigger] buckets[i].id != #[trigger] buckets[j].id
    &&& forall|i: int| 0 <= i < buckets.len() ==> #[trigger] buckets[i].atts.len() >= 1
    &&& forall|i: int, k: int|
        0 <= i < buckets.len() && 0 <= k < buckets[i].atts.len() ==> bucket_att_keyed(
            buckets[i],
            k,
        )
}

/// Attestation `k` of `bucket` encodes to the key's 48-byte data prefix.
pub open spec fn bucket_att_keyed(bucket: PoolBucketView, k: int) -> bool {
    &&& bucket.id.len() == 64
    &&& bucket.id.subrange(0, 48) == en_att_data(bucket.atts[k].data)
}

/// The first aggregate whose signer set is disjoint from `a`'s, if any.
pub open spec fn spec_first_disjoint(
    atts: Seq<ShardAttestationView>,
    a: ShardAttestationView,
) -> Option<int>
    decreases atts.len(),
{
    if atts.len() == 0 {
        None
    } else if spec_disjoint(atts[0].bits, a.bits) {
        Some(0)
    } else {
        match spec_first_disjoint(atts.drop_first(), a) {
            Option::None => None,
            Option::Some(k) => Some(k + 1),
        }
    }
}

/// What a successful or failed first-disjoint search means.
pub proof fn lemma_first_disjoint_props(atts: Seq<ShardAttestationView>, a: ShardAttestationView)
    ensures
        match spec_first_disjoint(atts, a) {
            Option::Some(k) => 0 <= k < atts.len() && spec_disjoint(atts[k].bits, a.bits),
            Option::None => forall|j: int|
                0 <= j < atts.len() ==> !spec_disjoint(#[trigger] atts[j].bits, a.bits),
        },
    decreases atts.len(),
{
    if atts.len() > 0 && !spec_disjoint(atts[0].bits, a.bits) {
        lemma_first_disjoint_props(atts.drop_first(), a);
        let rest = atts.drop_first();
        match spec_first_disjoint(rest, a) {
            Option::Some(k) => {
                assert(rest[k] == atts[k + 1]);
            },
            Option::None => {
                assert forall|j: int|
                    0 <= j < atts.len() implies !spec_disjoint(#[trigger] atts[j].bits, a.bits) by {
                    if j > 0 {
                        assert(rest[j - 1] == atts[j]);
                    }
                }
            },
        }
    }
}

/// One insertion step inside a bucket: the new attestation is aggregated
/// into exactly the first existing aggregate with a disjoint signer set;
/// failing that, an identical attestation already present makes it a
/// duplicate; failing both, it is appended.  The bucket stays a list of
/// disjoint aggregates.
pub open spec fn spec_insert_bucket(
    atts: Seq<ShardAttestationView>,
    a: ShardAttestationView,
) -> Seq<ShardAttestationView> {
    match spec_first_disjoint(atts, a) {
        Option::Some(i) => atts.update(
            i,
            ShardAttestationView {
                bits: spec_union(atts[i].bits, a.bits),
                data: atts[i].data,
                signature: atts[i].signature,
            },
        ),
        Option::None => {
            if exists|i: int| 0 <= i < atts.len() && spec_att_eq(#[trigger] atts[i], a) {
                atts
            } else {
                atts.push(a)
            }
        },
    }
}

pub open spec fn spec_att_eq(x: ShardAttestationView, y: ShardAttestationView) -> bool {
    x.bits == y.bits && x.data == y.data && x.signature == y.signature
}

/// The index of the bucket keyed by `id`, if any.
pub open spec fn spec_find_bucket(buckets: Seq<PoolBucketView>, id: Seq<u8>) -> Option<int>
    decreases buckets.len(),
{
    if buckets.len() == 0 {
        None
    } else if buckets[0].id == id {
        Some(0)
    } else {
        match spec_find_bucket(buckets.drop_first(), id) {
            Option::None => None,
            Option::Some(k) => Some(k + 1),
        }
    }
}

/// The whole insertion: aggregate into the existing bucket for this key, or
/// open a new bucket.
pub open spec fn spec_pool_insert(
    buckets: Seq<PoolBucketView>,
    id: Seq<u8>,
    a: ShardAttestationView,
) -> Seq<PoolBucketView> {
    match spec_find_bucket(buckets, id) {
        Option::None => buckets.push(PoolBucketView { id, atts: seq![a] }),
        Option::Some(k) => buckets.update(
            k,
            PoolBucketView { id, atts: spec_insert_bucket(buckets[k].atts, a) },
        ),
    }
}

/// The total number of attestations held, over all buckets.
pub open spec fn spec_num_attestations(buckets: Seq<PoolBucketView>) -> nat
    decreases buckets.len(),
{
    if buckets.len() == 0 {
        0
    } else {
        buckets.first().atts.len() + spec_num_attestations(buckets.drop_first())
    }
}

/// The buckets that survive pruning at `min_slot`.
pub open spec fn spec_prune(buckets: Seq<PoolBucketView>, min_slot: u64) -> Seq<PoolBucketView>
    decreases buckets.len(),
{
    if buckets.len() == 0 {
        Seq::empty()
    } else {
        let rest = spec_prune(buckets.drop_first(), min_slot);
        if buckets.first().atts.len() >= 1 && min_slot <= buckets.first().atts[0].data.target_slot {
            seq![buckets.first()] + rest
        } else {
            rest
        }
    }
}

/// The attestations whose key carries the given domain suffix.
pub open spec fn spec_matching(buckets: Seq<PoolBucketView>, suffix: Seq<u8>) -> Seq<
    ShardAttestationView,
>
    decreases buckets.len(),
{
    if buckets.len() == 0 {
        Seq::empty()
    } else {
        let rest = spec_matching(buckets.drop_first(), suffix);
        if spec_suffix_match(buckets.first().id, suffix) {
            buckets.first().atts + rest
        } else {
            rest
        }
    }
}

/// The index of the bucket keyed by `id`, if any.
fn find_bucket(buckets: &Vec<PoolBucket>, id: &AttestationId) -> (r: Option<usize>)
    ensures
        ({
            let vs = Seq::new(buckets@.len(), |i: int| buckets@[i]@);
            match r {
                Option::Some(k) => spec_find_bucket(vs, id@) == Some(k as int) && k < buckets@.len(),
                Option::None => spec_find_bucket(vs, id@) is None,
            }
        }),
{
    let ghost vs = Seq::new(buckets@.len(), |i: int| buckets@[i]@);
    let n = buckets.len();
    let mut k: usize = 0;
    proof {
        assert(vs.skip(0) =~= vs);
    }
    while k < n
        invariant
            n == buckets@.len(),
            vs == Seq::new(buckets@.len(), |i: int| buckets@[i]@),
            k <= n,
            spec_find_bucket_partial(vs, id@, k as int),
        decreases n - k,
    {
        if bytes_eq(&buckets[k].id.bytes, &id.bytes) {
            proof {
                lemma_find_bucket_found(vs, id@, k as int);
            }
            return Some(k);
        }
        proof {
            lemma_find_bucket_step(vs, id@, k as int);
        }
        k = k + 1;
    }
    proof {
        lemma_find_bucket_none(vs, id@, n as int);
    }
    None
}

/// The first aggregate in `atts` disjoint from `att`, if any.
fn find_first_disjoint(atts: &Vec<ShardAttestation>, att: &ShardAttestation) -> (r: Option<usize>)
    ensures
        ({
            let vs = Seq::new(atts@.len(), |i: int| atts@[i]@);
            match r {
                Option::Some(k) => spec_first_disjoint(vs, att@) == Some(k as int) && k
                    < atts@.len(),
                Option::None => spec_first_disjoint(vs, att@) is None,
            }
        }),
{
    let ghost vs = Seq::new(atts@.len(), |i: int| atts@[i]@);
    let n = atts.len();
    let mut k: usize = 0;
    proof {
        assert(vs.skip(0) =~= vs);
    }
    while k < n
        invariant
            n == atts@.len(),
            vs == Seq::new(atts@.len(), |i: int| atts@[i]@),
            k <= n,
            spec_first_disjoint(vs, att@) == (match spec_first_disjoint(vs.skip(k as int), att@) {
                Option::None => None::<int>,
                Option::Some(j) => Some(j + k),
            }),
        decreases n - k,
    {
        proof {
            assert(vs.skip(k as int).first() == vs[k as int]);
            assert(vs.skip(k as int).drop_first() =~= vs.skip(k + 1));
        }
        if atts[k].signers_disjoint_from(att) {
            return Some(k);
        }
        k = k + 1;
    }
    proof {
        assert(vs.skip(n as int) =~= Seq::<ShardAttestationView>::empty());
    }
    None
}

/// Inserts `att` into `atts` as `spec_insert_bucket` describes, returning
/// the rebuilt list.
fn bucket_insert(atts: &Vec<ShardAttestation>, att: &ShardAttestation) -> (r: Vec<
    ShardAttestation,
>)
    ensures
        Seq::new(r@.len(), |i: int| r@[i]@) == spec_insert_bucket(
            Seq::new(atts@.len(), |i: int| atts@[i]@),
            att@,
        ),
{
    let ghost vs = Seq::new(atts@.len(), |i: int| atts@[i]@);
    let n = atts.len();
    match find_first_disjoint(atts, att) {
        Option::Some(target) => {
            proof {
                lemma_first_disjoint_props(vs, att@);
            }
            let mut out: Vec<ShardAttestation> = Vec::new();
            let mut i: usize = 0;
            while i < n
                invariant
                    n == atts@.len(),
                    vs == Seq::new(atts@.len(), |k: int| atts@[k]@),
                    target < n,
                    spec_disjoint(vs[target as int].bits, att@.bits),
                    i <= n,
                    out@.len() == i,
                    forall|j: int|
                        0 <= j < i ==> out@[j]@ == (if j == target {
                            ShardAttestationView {
                                bits: spec_union(vs[j].bits, att@.bits),
                                data: vs[j].data,
                                signature: vs[j].signature,
                            }
                        } else {
                            vs[j]
                        }),
                decreases n - i,
            {
                if i == target {
                    let mut merged = atts[i].duplicate();
                    merged.aggregate(att);
                    out.push(merged);
                } else {
                    out.push(atts[i].duplicate());
                }
                i = i + 1;
            }
            proof {
                assert(Seq::new(out@.len(), |k: int| out@[k]@) =~= spec_insert_bucket(vs, att@));
            }
            out
        },
        Option::None => {
            let mut duplicate_found = false;
            let mut i: usize = 0;
            while i < n
                invariant
                    n == atts@.len(),
                    vs == Seq::new(atts@.len(), |k: int| atts@[k]@),
                    i <= n,
                    duplicate_found == exists|j: int|
                        0 <= j < i && spec_att_eq(#[trigger] vs[j], att@),
                decreases n - i,
            {
                if atts[i].eq_att(att) {
                    duplicate_found = true;
                    proof {
                        assert(spec_att_eq(vs[i as int], att@));
                    }
                } else {
                    proof {
                        assert(!spec_att_eq(vs[i as int], att@));
                    }
                }
                i = i + 1;
            }
            let mut out = duplicate_attestations(atts);
            if !duplicate_found {
                out.push(att.duplicate());
            }
            proof {
                assert(Seq::new(out@.len(), |k: int| out@[k]@) =~= spec_insert_bucket(vs, att@));
            }
            out
        },
    }
}

impl OperationPool {
    /// An empty pool.
    pub fn new() -> (r: OperationPool)
        ensures
            r@.buckets.len() == 0,
            r@.body.len() == 0,
            pool_wf(r@.buckets),
    {
        let r = OperationPool { buckets: Vec::new(), body: Vec::new() };
        proof {
            assert(r@.buckets =~= Seq::<PoolBucketView>::empty());
        }
        r
    }

    /// Inserts an attestation, aggregating it with the existing aggregates
    /// for the same data and domain wherever the signer sets are disjoint.
    pub fn insert_attestation(
        &mut self,
        attestation: ShardAttestation,
        beacon_state: &BeaconState,
        spec: &ChainSpec,
    )
        requires
            spec.wf(),
            beacon_state@.fork.wf(),
            pool_wf(old(self)@.buckets),
        ensures
            final(self)@.buckets == spec_pool_insert(
                old(self)@.buckets,
                spec_id_of(attestation@.data, beacon_state@.fork, *spec),
                attestation@,
            ),
            final(self)@.body == old(self)@.body,
            pool_wf(final(self)@.buckets),
    {
        let id = AttestationId::from_data(&attestation.data, beacon_state, spec);
        let ghost old_buckets = self@.buckets;
        proof {
            lemma_id_shape(attestation@.data, beacon_state@.fork, *spec);
        }
        match find_bucket(&self.buckets, &id) {
            Option::Some(k) => {
                proof {
                    lemma_find_bucket_id(old_buckets, id@);
                }
                let new_atts = bucket_insert(&self.buckets[k].atts, &attestation);
                let new_bucket = PoolBucket {
                    id: AttestationId { bytes: copy_bytes(&self.buckets[k].id.bytes) },
                    atts: new_atts,
                };
                self.buckets.set(k, new_bucket);
                proof {
                    assert(self@.buckets =~= spec_pool_insert(old_buckets, id@, attestation@));
                    lemma_insert_preserves_wf(old_buckets, id@, attestation@);
                }
            },
            Option::None => {
                let mut atts: Vec<ShardAttestation> = Vec::new();
                atts.push(attestation);
                self.buckets.push(PoolBucket { id, atts });
                proof {
                    assert(self@.buckets[old_buckets.len() as int].atts =~= seq![attestation@]);
                    assert(self@.buckets =~= spec_pool_insert(old_buckets, id@, attestation@));
                    lemma_insert_preserves_wf(old_buckets, id@, attestation@);
                }
            },
        }
    }

    /// The total number of attestations held, saturating at `usize::MAX`.
    #[verifier::loop_isolation(false)]
    pub fn num_attestations(&self) -> (r: usize)
        ensures
            r == if spec_num_attestations(self@.buckets) <= usize::MAX {
                spec_num_attestations(self@.buckets)
            } else {
                usize::MAX as nat
            },
    {
        let n = self.buckets.len();
        let mut total: usize = 0;
        let mut i: usize = 0;
        proof {
            lemma_num_attestations_take(self@.buckets, 0);
        }
        while i < n
            invariant
                n == self@.buckets.len(),
                i <= n,
                total == if spec_num_attestations(self@.buckets.take(i as int)) <= usize::MAX {
                    spec_num_attestations(self@.buckets.take(i as int))
                } else {
                    usize::MAX as nat
                },
            decreases n - i,
        {
            let len_i = self.buckets[i].atts.len();
            proof {
                lemma_num_attestations_push(self@.buckets.take(i as int), self@.buckets[i as int]);
                assert(self@.buckets.take(i + 1) =~= self@.buckets.take(i as int).push(
                    self@.buckets[i as int],
                ));
                assert(self@.buckets[i as int].atts.len() == len_i);
            }
            if usize::MAX - total >= len_i {
                total = total + len_i;
            } else {
                total = usize::MAX;
            }
            i = i + 1;
        }
        proof {
            assert(self@.buckets.take(n as int) =~= self@.buckets);
        }
        total
    }

    /// The best aggregate for inclusion at the state's current slot: among
    /// the attestations whose key carries the signing domain of the slot
    /// before `state.slot`, one with the most signers; empty if none match.
    #[verifier::loop_isolation(false)]
    pub fn get_attestation(
        &self,
        state: &ShardState,
        beacon_state: &BeaconState,
        spec: &ChainSpec,
    ) -> (r: Vec<ShardAttestation>)
        requires
            spec.wf(),
            beacon_state@.fork.wf(),
            state.slot >= 1,
        ensures
            ({
                let suffix = spec_domain_bytes(
                    beacon_state@.fork,
                    spec.spec_shard_epoch_of((state.slot - 1) as u64),
                    (state.slot - 1) as u64,
                );
                let matching = spec_matching(self@.buckets, suffix);
                if matching.len() == 0 {
                    r@.len() == 0
                } else {
                    &&& r@.len() == 1
                    &&& exists|i: int| 0 <= i < matching.len() && #[trigger] matching[i] == r@[0]@
                    &&& forall|i: int|
                        0 <= i < matching.len() ==> spec_count_set(#[trigger] matching[i].bits)
                            <= spec_count_set(r@[0]@.bits)
                }
            }),
    {
        let attesting_slot = state.slot - 1;
        let epoch = spec.shard_epoch_of(attesting_slot);
        let suffix = AttestationId::compute_domain_bytes(epoch, attesting_slot, beacon_state, spec);
        let n = self.buckets.len();
        let mut best: Option<ShardAttestation> = None;
        let mut best_count: usize = 0;
        let mut i: usize = 0;
        proof {
            lemma_matching_take(self@.buckets, suffix@, 0);
        }
        while i < n
            invariant
                n == self@.buckets.len(),
                i <= n,
                suffix@ == spec_domain_bytes(
                    beacon_state@.fork,
                    spec.spec_shard_epoch_of((state.slot - 1) as u64),
                    (state.slot - 1) as u64,
                ),
                spec.wf(),
                state.slot >= 1,
                ({
                    let matching = spec_matching(self@.buckets.take(i as int), suffix@);
                    match best {
                        Option::None => matching.len() == 0,
                        Option::Some(b) => {
                            &&& matching.len() > 0
                            &&& best_count == spec_count_set(b@.bits)
                            &&& exists|j: int| 0 <= j < matching.len() && #[trigger] matching[j] == b@
                            &&& forall|j: int|
                                0 <= j < matching.len() ==> spec_count_set(
                                    #[trigger] matching[j].bits,
                                ) <= spec_count_set(b@.bits)
                        },
                    }
                }),
            decreases n - i,
        {
            proof {
                lemma_matching_push(self@.buckets.take(i as int), self@.buckets[i as int], suffix@);
                assert(self@.buckets.take(i + 1) =~= self@.buckets.take(i as int).push(
                    self@.buckets[i as int],
                ));
            }
            let bucket = &self.buckets[i];
            if bucket.id.domain_bytes_match(&suffix) {
                let m = bucket.atts.len();
                let mut j: usize = 0;
                proof {
                    assert(bucket@.atts.take(0) =~= Seq::<ShardAttestationView>::empty());
                    assert(spec_matching(self@.buckets.take(i as int), suffix@)
                        + bucket@.atts.take(0) =~= spec_matching(
                        self@.buckets.take(i as int),
                        suffix@,
                    ));
                }
                while j < m
                    invariant
                        m == bucket.atts@.len(),
                        j <= m,
                        bucket@ == self@.buckets[i as int],
                        ({
                            let matching = spec_matching(self@.buckets.take(i as int), suffix@)
                                + bucket@.atts.take(j as int);
                            match best {
                                Option::None => matching.len() == 0,
                                Option::Some(b) => {
                                    &&& matching.len() > 0
                                    &&& best_count == spec_count_set(b@.bits)
                                    &&& exists|l: int|
                                        0 <= l < matching.len() && #[trigger] matching[l] == b@
                                    &&& forall|l: int|
                                        0 <= l < matching.len() ==> spec_count_set(
                                            #[trigger] matching[l].bits,
                                        ) <= spec_count_set(b@.bits)
                                },
                            }
                        }),
                    decreases m - j,
                {
                    let cur = &bucket.atts[j];
                    let cur_count = cur.aggregation_bitfield.num_set_bits();
                    let replace = match &best {
                        Option::None => true,
                        Option::Some(_) => cur_count > best_count,
                    };
                    let ghost m_old = spec_matching(self@.buckets.take(i as int), suffix@)
                        + bucket@.atts.take(j as int);
                    let ghost m_new = m_old.push(cur@);
                    proof {
                        assert(bucket@.atts.take(j + 1) =~= bucket@.atts.take(j as int).push(
                            cur@,
                        ));
                        assert(spec_matching(self@.buckets.take(i as int), suffix@) + bucket@.atts.take(
                            j + 1,
                        ) =~= m_new);
                    }
                    if replace {
                        best = Some(cur.duplicate());
                        best_count = cur_count;
                    }
                    proof {
                        if best is Some {
                            let b = best->Some_0;
                            if replace {
                                assert(m_new[m_new.len() - 1] == cur@);
                                assert(m_new[m_new.len() - 1] == b@);
                            } else {
                                let l0 = choose|l0: int| 0 <= l0 < m_old.len() && m_old[l0] == b@;
                                assert(m_new[l0] == b@);
                            }
                            assert forall|l: int| 0 <= l < m_new.len() implies spec_count_set(
                                #[trigger] m_new[l].bits,
                            ) <= spec_count_set(b@.bits) by {
                                if l < m_old.len() {
                                    assert(m_new[l] == m_old[l]);
                                } else {
                                    assert(m_new[l] == cur@);
                                }
                            }
                        }
                    }
                    j = j + 1;
                }
                proof {
                    assert(bucket@.atts.take(m as int) =~= bucket@.atts);
                }
            }
            i = i + 1;
        }
        proof {
            assert(self@.buckets.take(n as int) =~= self@.buckets);
        }
        let mut r: Vec<ShardAttestation> = Vec::new();
        match best {
            Option::None => {},
            Option::Some(b) => {
                r.push(b);
            },
        }
        r
    }

    /// Drops every bucket whose attestations target a slot below the
    /// finalized state's slot.  With the pool invariant, every attestation
    /// that remains has `target_slot >= finalized_state.slot`.
    #[verifier::loop_isolation(false)]
    pub fn prune_attestations(&mut self, finalized_state: &ShardState)
        requires
            pool_wf(old(self)@.buckets),
        ensures
            final(self)@.buckets == spec_prune(old(self)@.buckets, finalized_state.slot),
            final(self)@.body == old(self)@.body,
            pool_wf(final(self)@.buckets),
            forall|i: int, k: int|
                0 <= i < final(self)@.buckets.len() && 0 <= k < final(self)@.buckets[i].atts.len()
                    ==> final(self)@.buckets[i].atts[k].data.target_slot >= finalized_state.slot,
    {
        let ghost old_buckets = self@.buckets;
        let min_slot = finalized_state.slot;
        let n = self.buckets.len();
        let mut out: Vec<PoolBucket> = Vec::new();
        let mut i: usize = 0;
        proof {
            lemma_prune_take(self@.buckets, min_slot, 0);
        }
        while i < n
            invariant
                n == self@.buckets.len(),
                self@.buckets == old_buckets,
                i <= n,
                Seq::new(out@.len(), |j: int| out@[j]@) == spec_prune(
                    old_buckets.take(i as int),
                    min_slot,
                ),
            decreases n - i,
        {
            proof {
                lemma_prune_push(old_buckets.take(i as int), old_buckets[i as int], min_slot);
                assert(old_buckets.take(i + 1) =~= old_buckets.take(i as int).push(
                    old_buckets[i as int],
                ));
            }
            let bucket = &self.buckets[i];
            let keep = if bucket.atts.len() >= 1 {
                min_slot <= bucket.atts[0].data.target_slot
            } else {
                false
            };
            if keep {
                let copied = PoolBucket {
                    id: AttestationId { bytes: copy_bytes(&bucket.id.bytes) },
                    atts: duplicate_attestations(&bucket.atts),
                };
                proof {
                    assert(copied@.atts =~= bucket@.atts);
                }
                out.push(copied);
                proof {
                    assert(Seq::new(out@.len(), |j: int| out@[j]@) =~= spec_prune(
                        old_buckets.take(i + 1),
                        min_slot,
                    ));
                }
            } else {
                proof {
                    assert(Seq::new(out@.len(), |j: int| out@[j]@) =~= spec_prune(
                        old_buckets.take(i + 1),
                        min_slot,
                    ));
                }
            }
            i = i + 1;
        }
        proof {
            assert(old_buckets.take(n as int) =~= old_buckets);
        }
        self.buckets = out;
        proof {
            lemma_prune_wf(old_buckets, min_slot);
            lemma_prune_bounds(old_buckets, min_slot);
        }
    }

    /// Records the block body handed in by the relay path.
    pub fn insert_body(&mut self, body: Vec<u8>)
        ensures
            final(self)@.body == body@,
            final(self)@.buckets == old(self)@.buckets,
    {
        self.body = body;
    }

    /// Takes the recorded block body, leaving the pool's copy empty.
    pub fn get_body(&mut self) -> (r: Vec<u8>)
        ensures
            r@ == old(self)@.body,
            final(self)@.body.len() == 0,
            final(self)@.buckets == old(self)@.buckets,
    {
        let body = copy_bytes(&self.body);
        self.body = Vec::new();
        body
    }
}

// ---------------------------------------------------------------------------
// Lemmas about the pool's spec functions
// ---------------------------------------------------------------------------

/// After scanning the first `k` buckets without a match, the search result
/// is decided by the remainder.
pub open spec fn spec_find_bucket_partial(
    buckets: Seq<PoolBucketView>,
    id: Seq<u8>,
    k: int,
) -> bool {
    spec_find_bucket(buckets, id) == (match spec_find_bucket(buckets.skip(k), id) {
        Option::None => None::<int>,
        Option::Some(j) => Some(j + k),
    })
}

proof fn lemma_find_bucket_step(buckets: Seq<PoolBucketView>, id: Seq<u8>, k: int)
    requires
        0 <= k < buckets.len(),
        buckets[k].id != id,
        spec_find_bucket_partial(buckets, id, k),
    ensures
        spec_find_bucket_partial(buckets, id, k + 1),
{
    assert(buckets.skip(k).first() == buckets[k]);
    assert(buckets.skip(k).drop_first() =~= buckets.skip(k + 1));
}

proof fn lemma_find_bucket_found(buckets: Seq<PoolBucketView>, id: Seq<u8>, k: int)
    requires
        0 <= k < buckets.len(),
        buckets[k].id == id,
        spec_find_bucket_partial(buckets, id, k),
    ensures
        spec_find_bucket(buckets, id) == Some(k),
{
    assert(buckets.skip(k).first() == buckets[k]);
}

proof fn lemma_find_bucket_none(buckets: Seq<PoolBucketView>, id: Seq<u8>, n: int)
    requires
        n == buckets.len(),
        spec_find_bucket_partial(buckets, id, n),
    ensures
        spec_find_bucket(buckets, id) is None,
{
    assert(buckets.skip(n) =~= Seq::<PoolBucketView>::empty());
}

/// The key of any data is 64 bytes long and starts with the data encoding.
pub proof fn lemma_id_shape(data: ShardAttestationData, fork: Fork, spec: ChainSpec)
    ensures
        spec_id_of(data, fork, spec).len() == 64,
        spec_id_of(data, fork, spec).subrange(0, 48) == en_att_data(data),
{
    crate::bytes_util::lemma_u64_be_roundtrip(data.shard);
    crate::bytes_util::lemma_u64_be_roundtrip(data.target_slot);
    crate::bytes_util::lemma_u64_be_roundtrip(
        spec_get_domain(fork, spec.spec_shard_epoch_of(data.target_slot), Domain::ShardAttestation),
    );
    crate::bytes_util::lemma_u64_be_roundtrip(data.target_slot);
    crate::hash256::Hash256::lemma_bytes_len(data.target_root);
    assert(spec_id_of(data, fork, spec).subrange(0, 48) =~= en_att_data(data));
}

/// Insertion preserves the pool invariant.
proof fn lemma_insert_preserves_wf(
    buckets: Seq<PoolBucketView>,
    id: Seq<u8>,
    a: ShardAttestationView,
)
    requires
        pool_wf(buckets),
        id.len() == 64,
        id.subrange(0, 48) == en_att_data(a.data),
    ensures
        pool_wf(spec_pool_insert(buckets, id, a)),
{
    let r = spec_pool_insert(buckets, id, a);
    match spec_find_bucket(buckets, id) {
        Option::None => {
            assert forall|i: int, k: int|
                0 <= i < r.len() && 0 <= k < r[i].atts.len() implies bucket_att_keyed(r[i], k) by {
                if i < buckets.len() {
                    assert(bucket_att_keyed(buckets[i], k));
                } else {
                    assert(r[i].atts == seq![a]);
                }
            }
            lemma_find_bucket_no_dup(buckets, id);
        },
        Option::Some(k0) => {
            lemma_find_bucket_in_range(buckets, id);
            assert(0 <= k0 < buckets.len());
            lemma_find_bucket_id(buckets, id);
            assert(buckets[k0].id == id);
            assert forall|i: int, k: int|
                0 <= i < r.len() && 0 <= k < r[i].atts.len() implies bucket_att_keyed(r[i], k) by {
                if i != k0 {
                    assert(bucket_att_keyed(buckets[i], k));
                } else {
                    let atts = buckets[k0].atts;
                    let ins = spec_insert_bucket(atts, a);
                    lemma_first_disjoint_props(atts, a);
                    match spec_first_disjoint(atts, a) {
                        Option::Some(d) => {
                            assert(bucket_att_keyed(buckets[k0], k));
                            assert(ins[k].data == atts[k].data);
                        },
                        Option::None => {
                            if k < atts.len() {
                                assert(bucket_att_keyed(buckets[k0], k));
                                assert(ins[k].data == atts[k].data);
                            } else {
                                assert(ins[k] == a);
                            }
                        },
                    }
                }
            }
            assert forall|i: int| 0 <= i < r.len() implies #[trigger] r[i].atts.len() >= 1 by {
                if i == k0 {
                    let atts = buckets[k0].atts;
                    lemma_first_disjoint_props(atts, a);
                    assert(atts.len() >= 1);
                } else {
                    assert(r[i] == buckets[i]);
                }
            }
        },
    }
}

/// If the search failed, no bucket carries the key.
proof fn lemma_find_bucket_no_dup(buckets: Seq<PoolBucketView>, id: Seq<u8>)
    requires
        spec_find_bucket(buckets, id) is None,
    ensures
        forall|i: int| 0 <= i < buckets.len() ==> #[trigger] buckets[i].id != id,
    decreases buckets.len(),
{
    if buckets.len() > 0 {
        lemma_find_bucket_no_dup(buckets.drop_first(), id);
        assert forall|i: int| 0 <= i < buckets.len() implies #[trigger] buckets[i].id != id by {
            if i > 0 {
                assert(buckets.drop_first()[i - 1] == buckets[i]);
            }
        }
    }
}

/// A successful search yields an index in range.
proof fn lemma_find_bucket_in_range(buckets: Seq<PoolBucketView>, id: Seq<u8>)
    requires
        spec_find_bucket(buckets, id) is Some,
    ensures
        0 <= spec_find_bucket(buckets, id)->Some_0 < buckets.len(),
    decreases buckets.len(),
{
    if buckets.len() > 0 && buckets[0].id != id {
        lemma_find_bucket_in_range(buckets.drop_first(), id);
    }
}

/// A successful search yields the bucket with the key.
proof fn lemma_find_bucket_id(buckets: Seq<PoolBucketView>, id: Seq<u8>)
    requires
        spec_find_bucket(buckets, id) is Some,
    ensures
        0 <= spec_find_bucket(buckets, id)->Some_0 < buckets.len(),
        buckets[spec_find_bucket(buckets, id)->Some_0].id == id,
    decreases buckets.len(),
{
    lemma_find_bucket_in_range(buckets, id);
    if buckets.len() > 0 && buckets[0].id != id {
        lemma_find_bucket_id(buckets.drop_first(), id);
        assert(buckets.drop_first()[spec_find_bucket(buckets.drop_first(), id)->Some_0]
            == buckets[spec_find_bucket(buckets, id)->Some_0]);
    }
}

proof fn lemma_num_attestations_take(buckets: Seq<PoolBucketView>, i: int)
    requires
        i == 0,
    ensures
        spec_num_attestations(buckets.take(0)) == 0,
{
    assert(buckets.take(0) =~= Seq::<PoolBucketView>::empty());
}

proof fn lemma_num_attestations_push(buckets: Seq<PoolBucketView>, b: PoolBucketView)
    ensures
        spec_num_attestations(buckets.push(b)) == spec_num_attestations(buckets) + b.atts.len(),
    decreases buckets.len(),
{
    reveal_with_fuel(spec_num_attestations, 3);
    if buckets.len() == 0 {
        assert(buckets.push(b).first() == b);
        assert(buckets.push(b).drop_first() =~= Seq::<PoolBucketView>::empty());
    } else {
        assert(buckets.push(b).first() == buckets.first());
        assert(buckets.push(b).drop_first() =~= buckets.drop_first().push(b));
        lemma_num_attestations_push(buckets.drop_first(), b);
    }
}

proof fn lemma_matching_take(buckets: Seq<PoolBucketView>, suffix: Seq<u8>, i: int)
    requires
        i == 0,
    ensures
        spec_matching(buckets.take(0), suffix).len() == 0,
{
    assert(buckets.take(0) =~= Seq::<PoolBucketView>::empty());
}

proof fn lemma_matching_push(buckets: Seq<PoolBucketView>, b: PoolBucketView, suffix: Seq<u8>)
    ensures
        spec_matching(buckets.push(b), suffix) == if spec_suffix_match(b.id, suffix) {
            spec_matching(buckets, suffix) + b.atts
        } else {
            spec_matching(buckets, suffix)
        },
    decreases buckets.len(),
{
    reveal_with_fuel(spec_matching, 3);
    if buckets.len() == 0 {
        assert(buckets.push(b).first() == b);
        assert(buckets.push(b).drop_first() =~= Seq::<PoolBucketView>::empty());
        if spec_suffix_match(b.id, suffix) {
            assert(spec_matching(buckets.push(b), suffix) =~= spec_matching(buckets, suffix)
                + b.atts);
        } else {
            assert(spec_matching(buckets.push(b), suffix) =~= spec_matching(buckets, suffix));
        }
    } else {
        assert(buckets.push(b).first() == buckets.first());
        assert(buckets.push(b).drop_first() =~= buckets.drop_first().push(b));
        lemma_matching_push(buckets.drop_first(), b, suffix);
        if spec_suffix_match(buckets.first().id, suffix) {
            if spec_suffix_match(b.id, suffix) {
                assert(spec_matching(buckets.push(b), suffix) =~= spec_matching(buckets, suffix)
                    + b.atts);
            }
        } else {
            if spec_suffix_match(b.id, suffix) {
                assert(spec_matching(buckets.push(b), suffix) =~= spec_matching(buckets, suffix)
                    + b.atts);
            }
        }
    }
}

proof fn lemma_prune_take(buckets: Seq<PoolBucketView>, min_slot: u64, i: int)
    requires
        i == 0,
    ensures
        spec_prune(buckets.take(0), min_slot) == Seq::<PoolBucketView>::empty(),
{
    assert(buckets.take(0) =~= Seq::<PoolBucketView>::empty());
}

proof fn lemma_prune_push(buckets: Seq<PoolBucketView>, b: PoolBucketView, min_slot: u64)
    ensures
        spec_prune(buckets.push(b), min_slot) == if b.atts.len() >= 1 && min_slot
            <= b.atts[0].data.target_slot {
            spec_prune(buckets, min_slot) + seq![b]
        } else {
            spec_prune(buckets, min_slot)
        },
    decreases buckets.len(),
{
    reveal_with_fuel(spec_prune, 3);
    if buckets.len() == 0 {
        assert(buckets.push(b).first() == b);
        assert(buckets.push(b).drop_first() =~= Seq::<PoolBucketView>::empty());
        if b.atts.len() >= 1 && min_slot <= b.atts[0].data.target_slot {
            assert(spec_prune(buckets.push(b), min_slot) =~= spec_prune(buckets, min_slot) + seq![
                b,
            ]);
        } else {
            assert(spec_prune(buckets.push(b), min_slot) =~= spec_prune(buckets, min_slot));
        }
    } else {
        assert(buckets.push(b).first() == buckets.first());
        assert(buckets.push(b).drop_first() =~= buckets.drop_first().push(b));
        lemma_prune_push(buckets.drop_first(), b, min_slot);
        if b.atts.len() >= 1 && min_slot <= b.atts[0].data.target_slot {
            assert(spec_prune(buckets.push(b), min_slot) =~= spec_prune(buckets, min_slot) + seq![
                b,
            ]);
        } else {
            assert(spec_prune(buckets.push(b), min_slot) =~= spec_prune(buckets, min_slot));
        }
    }
}

/// Every pruned bucket is one of the original buckets.
proof fn lemma_prune_subset(buckets: Seq<PoolBucketView>, min_slot: u64)
    ensures
        forall|i: int|
            0 <= i < spec_prune(buckets, min_slot).len() ==> exists|j: int|
                0 <= j < buckets.len() && #[trigger] spec_prune(buckets, min_slot)[i]
                    == buckets[j],
    decreases buckets.len(),
{
    if buckets.len() > 0 {
        lemma_prune_subset(buckets.drop_first(), min_slot);
        let r = spec_prune(buckets, min_slot);
        let rest = spec_prune(buckets.drop_first(), min_slot);
        assert forall|i: int| 0 <= i < r.len() implies exists|j: int|
            0 <= j < buckets.len() && #[trigger] r[i] == buckets[j] by {
            let keep_first = buckets.first().atts.len() >= 1 && min_slot
                <= buckets.first().atts[0].data.target_slot;
            if keep_first && i == 0 {
                assert(r[i] == buckets[0]);
            } else {
                let i2 = if keep_first {
                    i - 1
                } else {
                    i
                };
                assert(rest[i2] == r[i]);
                let j2 = choose|j2: int|
                    0 <= j2 < buckets.drop_first().len() && rest[i2] == buckets.drop_first()[j2];
                assert(buckets.drop_first()[j2] == buckets[j2 + 1]);
            }
        }
    }
}

/// Pruning keeps the invariant: the survivors are a subsequence with keys
/// and contents untouched.
proof fn lemma_prune_wf(buckets: Seq<PoolBucketView>, min_slot: u64)
    requires
        pool_wf(buckets),
    ensures
        pool_wf(spec_prune(buckets, min_slot)),
    decreases buckets.len(),
{
    if buckets.len() > 0 {
        assert(pool_wf(buckets.drop_first())) by {
            assert forall|i: int, k: int|
                0 <= i < buckets.drop_first().len() && 0 <= k
                    < buckets.drop_first()[i].atts.len() implies bucket_att_keyed(
                buckets.drop_first()[i],
                k,
            ) by {
                assert(buckets.drop_first()[i] == buckets[i + 1]);
                assert(bucket_att_keyed(buckets[i + 1], k));
            }
            assert forall|i: int, j: int|
                0 <= i < j < buckets.drop_first().len() implies #[trigger] buckets.drop_first()[i].id
                != #[trigger] buckets.drop_first()[j].id by {
                assert(buckets.drop_first()[i] == buckets[i + 1]);
                assert(buckets.drop_first()[j] == buckets[j + 1]);
            }
            assert forall|i: int| 0 <= i < buckets.drop_first().len() implies #[trigger] buckets.drop_first()[i].atts.len()
                >= 1 by {
                assert(buckets.drop_first()[i] == buckets[i + 1]);
            }
        }
        lemma_prune_wf(buckets.drop_first(), min_slot);
        let r = spec_prune(buckets, min_slot);
        let rest = spec_prune(buckets.drop_first(), min_slot);
        let keep_first = buckets.first().atts.len() >= 1 && min_slot
            <= buckets.first().atts[0].data.target_slot;
        if keep_first {
            lemma_prune_subset(buckets.drop_first(), min_slot);
            assert forall|i: int, j: int| 0 <= i < j < r.len() implies #[trigger] r[i].id
                != #[trigger] r[j].id by {
                if i == 0 {
                    assert(r[j] == rest[j - 1]);
                    let dropped = buckets.drop_first();
                    let j2 = choose|j2: int|
                        0 <= j2 < dropped.len() && rest[j - 1] == dropped[j2];
                    assert(buckets.drop_first()[j2] == buckets[j2 + 1]);
                    assert(buckets[0].id != buckets[j2 + 1].id);
                } else {
                    assert(r[i] == rest[i - 1] && r[j] == rest[j - 1]);
                }
            }
            assert forall|i: int, k: int|
                0 <= i < r.len() && 0 <= k < r[i].atts.len() implies bucket_att_keyed(r[i], k) by {
                assert(bucket_att_keyed(buckets[0], k) || true);
                if i == 0 {
                    assert(r[0] == buckets[0]);
                    assert(bucket_att_keyed(buckets[0], k));
                } else {
                    assert(r[i] == rest[i - 1]);
                }
            }
        }
    }
}

/// Everything that survives pruning targets a slot at or past the floor.
proof fn lemma_prune_bounds(buckets: Seq<PoolBucketView>, min_slot: u64)
    requires
        pool_wf(buckets),
    ensures
        forall|i: int, k: int|
            0 <= i < spec_prune(buckets, min_slot).len() && 0 <= k < spec_prune(
                buckets,
                min_slot,
            )[i].atts.len() ==> spec_prune(buckets, min_slot)[i].atts[k].data.target_slot
                >= min_slot,
    decreases buckets.len(),
{
    let r = spec_prune(buckets, min_slot);
    if buckets.len() > 0 {
        assert(pool_wf(buckets.drop_first())) by {
            assert forall|i: int, k: int|
                0 <= i < buckets.drop_first().len() && 0 <= k
                    < buckets.drop_first()[i].atts.len() implies bucket_att_keyed(
                buckets.drop_first()[i],
                k,
            ) by {
                assert(buckets.drop_first()[i] == buckets[i + 1]);
                assert(bucket_att_keyed(buckets[i + 1], k));
            }
            assert forall|i: int, j: int|
                0 <= i < j < buckets.drop_first().len() implies #[trigger] buckets.drop_first()[i].id
                != #[trigger] buckets.drop_first()[j].id by {
                assert(buckets.drop_first()[i] == buckets[i + 1]);
                assert(buckets.drop_first()[j] == buckets[j + 1]);
            }
            assert forall|i: int| 0 <= i < buckets.drop_first().len() implies #[trigger] buckets.drop_first()[i].atts.len()
                >= 1 by {
                assert(buckets.drop_first()[i] == buckets[i + 1]);
            }
        }
        lemma_prune_bounds(buckets.drop_first(), min_slot);
        let rest = spec_prune(buckets.drop_first(), min_slot);
        let keep_first = buckets.first().atts.len() >= 1 && min_slot
            <= buckets.first().atts[0].data.target_slot;
        assert forall|i: int, k: int|
            0 <= i < r.len() && 0 <= k < r[i].atts.len() implies r[i].atts[k].data.target_slot
            >= min_slot by {
            if keep_first && i == 0 {
                assert(r[0] == buckets[0]);
                assert(bucket_att_keyed(buckets[0], 0));
                assert(bucket_att_keyed(buckets[0], k));
                lemma_en_att_data_injective(buckets[0].atts[k].data, buckets[0].atts[0].data);
                assert(buckets[0].atts[k].data == buckets[0].atts[0].data);
            } else {
                let i2 = if keep_first {
                    i - 1
                } else {
                    i
                };
                assert(r[i] == rest[i2]);
            }
        }
    }
}

// ---------------------------------------------------------------------------
// Aggregation laws
// ---------------------------------------------------------------------------

/// Inserting two attestations for the same identity with disjoint signer
/// sets into an empty pool leaves exactly one aggregate, and its signer set
/// is the union of the two.
pub proof fn lemma_aggregation_disjoint(
    id: Seq<u8>,
    a: ShardAttestationView,
    b: ShardAttestationView,
)
    requires
        spec_disjoint(a.bits, b.bits),
    ensures
        ({
            let p1 = spec_pool_insert(Seq::empty(), id, a);
            let p2 = spec_pool_insert(p1, id, b);
            &&& p2.len() == 1
            &&& p2[0].atts.len() == 1
            &&& p2[0].atts[0].bits == spec_union(a.bits, b.bits)
            &&& p2[0].atts[0].data == a.data
            &&& spec_num_attestations(p2) == 1
        }),
{
    let empty = Seq::<PoolBucketView>::empty();
    let p1 = spec_pool_insert(empty, id, a);
    assert(spec_find_bucket(empty, id) is None);
    assert(p1 =~= seq![PoolBucketView { id, atts: seq![a] }]);
    let p2 = spec_pool_insert(p1, id, b);
    assert(spec_find_bucket(p1, id) == Some(0int));
    assert(spec_disjoint(seq![a][0].bits, b.bits));
    assert(spec_first_disjoint(seq![a], b) == Some(0int));
    assert(spec_insert_bucket(seq![a], b) =~= seq![
        ShardAttestationView {
            bits: spec_union(a.bits, b.bits),
            data: a.data,
            signature: a.signature,
        },
    ]);
    assert(p2 =~= seq![
        PoolBucketView {
            id,
            atts: seq![
                ShardAttestationView {
                    bits: spec_union(a.bits, b.bits),
                    data: a.data,
                    signature: a.signature,
                },
            ],
        },
    ]);
    assert(spec_num_attestations(p2) == 1) by {
        reveal_with_fuel(spec_num_attestations, 3);
        assert(p2.first().atts.len() == 1);
        assert(p2.drop_first() =~= Seq::<PoolBucketView>::empty());
    }
}

/// Inserting the same attestation twice into an empty pool leaves a single
/// entry whose signer set is unchanged.
pub proof fn lemma_aggregation_identical(id: Seq<u8>, a: ShardAttestationView)
    ensures
        ({
            let p1 = spec_pool_insert(Seq::empty(), id, a);
            let p2 = spec_pool_insert(p1, id, a);
            &&& p2.len() == 1
            &&& p2[0].atts.len() == 1
            &&& p2[0].atts[0].bits == a.bits
            &&& p2[0].atts[0].data == a.data
            &&& spec_num_attestations(p2) == 1
        }),
{
    let empty = Seq::<PoolBucketView>::empty();
    let p1 = spec_pool_insert(empty, id, a);
    assert(spec_find_bucket(empty, id) is None);
    assert(p1 =~= seq![PoolBucketView { id, atts: seq![a] }]);
    let p2 = spec_pool_insert(p1, id, a);
    assert(spec_find_bucket(p1, id) == Some(0int));
    if spec_disjoint(a.bits, a.bits) {
        assert(spec_first_disjoint(seq![a], a) == Some(0int));
        assert(spec_union(a.bits, a.bits) =~= a.bits);
        assert(seq![a].update(0, ShardAttestationView {
            bits: spec_union(a.bits, a.bits),
            data: a.data,
            signature: a.signature,
        }) =~= seq![a]);
    } else {
        assert(seq![a].drop_first() =~= Seq::<ShardAttestationView>::empty());
        reveal_with_fuel(spec_first_disjoint, 3);
        assert(spec_first_disjoint(seq![a], a) is None);
        assert(spec_att_eq(seq![a][0], a));
    }
    assert(spec_insert_bucket(seq![a], a) =~= seq![a]);
    assert(p2 =~= seq![PoolBucketView { id, atts: seq![a] }]);
    assert(spec_num_attestations(p2) == 1) by {
        reveal_with_fuel(spec_num_attestations, 3);
        assert(p2.first().atts.len() == 1);
        assert(p2.drop_first() =~= Seq::<PoolBucketView>::empty());
    }
}

} // verus!
