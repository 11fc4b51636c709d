//! The canonical, deterministic encoding of shard-chain objects, the parser
//! that inverts it, and the canonical roots derived from it.
//!
//! Every encoder has a parser that provably inverts it, so the canonical
//! root of a block — the digest of its signature-free encoding — is stable
//! across serialization, deserialization and re-serialization.

use vstd::prelude::*;
use crate::bytes_util::{
    copy_bytes, lemma_u64_be_roundtrip, push_u64_be, read_u64_be, spec_u64_be, spec_u64_from_be,
};
use crate::digest::{hash_of_bytes, spec_hash_of_bytes};
use crate::hash256::Hash256;
use crate::shard_types::{
    ShardAttestation, ShardAttestationData, ShardAttestationView, ShardBlock, ShardBlockHeader,
    ShardBlockHeaderView, ShardBlockView,
};
use crate::types::{AggregateSignature, Bitfield, Signature};

verus! {

// ---------------------------------------------------------------------------
// Encoders (spec level)
// ---------------------------------------------------------------------------

pub open spec fn en_u64(x: u64) -> Seq<u8> {
    spec_u64_be(x)
}

pub open spec fn en_hash(h: Hash256) -> Seq<u8> {
    h.spec_bytes()
}

/// A length-prefixed byte string.
pub open spec fn en_bytes(b: Seq<u8>) -> Seq<u8> {
    en_u64(b.len() as u64) + b
}

/// A length-prefixed bitfield, one byte per bit.
pub open spec fn en_bits(bits: Seq<bool>) -> Seq<u8> {
    en_u64(bits.len() as u64) + Seq::new(
        bits.len(),
        |i: int|
            if bits[i] {
                1u8
            } else {
                0u8
            },
    )
}

pub open spec fn en_sig(s: Signature) -> Seq<u8> {
    en_hash(s.msg_root) + en_u64(s.domain) + en_u64(s.signer)
}

pub open spec fn en_agg(s: AggregateSignature) -> Seq<u8> {
    en_hash(s.msg_root) + en_u64(s.domain)
}

pub open spec fn en_att_data(d: ShardAttestationData) -> Seq<u8> {
    en_u64(d.shard) + en_u64(d.target_slot) + en_hash(d.target_root)
}

pub open spec fn en_att(a: ShardAttestationView) -> Seq<u8> {
    en_att_data(a.data) + en_bits(a.bits) + en_agg(a.signature)
}

pub open spec fn en_att_seq(atts: Seq<ShardAttestationView>) -> Seq<u8>
    decreases atts.len(),
{
    if atts.len() == 0 {
        Seq::empty()
    } else {
        en_att(atts.first()) + en_att_seq(atts.drop_first())
    }
}

/// A count-prefixed attestation list.
pub open spec fn en_att_list(atts: Seq<ShardAttestationView>) -> Seq<u8> {
    en_u64(atts.len() as u64) + en_att_seq(atts)
}

/// The signature-free encoding of a shard block: what the canonical root
/// digests.
pub open spec fn en_block_unsigned(b: ShardBlockView) -> Seq<u8> {
    en_u64(b.slot) + en_u64(b.shard) + en_hash(b.parent_root) + en_hash(b.beacon_block_root)
        + en_hash(b.state_root) + en_bytes(b.body) + en_att_list(b.attestation)
}

/// The wire encoding of a shard block.
pub open spec fn en_block(b: ShardBlockView) -> Seq<u8> {
    en_block_unsigned(b) + en_sig(b.signature)
}

/// The bounds under which the length prefixes are faithful; every value
/// built from executable vectors satisfies them.
pub open spec fn block_view_wf(b: ShardBlockView) -> bool {
    &&& b.body.len() <= u64::MAX
    &&& atts_wf(b.attestation)
}

pub open spec fn atts_wf(atts: Seq<ShardAttestationView>) -> bool {
    &&& atts.len() <= u64::MAX
    &&& forall|i: int| 0 <= i < atts.len() ==> #[trigger] atts[i].bits.len() <= u64::MAX
}

// ---------------------------------------------------------------------------
// Parsers (spec level)
// ---------------------------------------------------------------------------

pub open spec fn sp_u64(s: Seq<u8>, off: int) -> Option<(u64, int)> {
    if 0 <= off && off + 8 <= s.len() {
        Some((spec_u64_from_be(s.subrange(off, off + 8)), off + 8))
    } else {
        None
    }
}

pub open spec fn sp_hash(s: Seq<u8>, off: int) -> Option<(Hash256, int)> {
    if 0 <= off && off + 32 <= s.len() {
        Some((Hash256::spec_from_bytes(s.subrange(off, off + 32)), off + 32))
    } else {
        None
    }
}

pub open spec fn sp_bytes(s: Seq<u8>, off: int) -> Option<(Seq<u8>, int)> {
    match sp_u64(s, off) {
        Option::None => None,
        Option::Some((n, o)) => if o + n <= s.len() {
            Some((s.subrange(o, o + n), o + n))
        } else {
            None
        },
    }
}

pub open spec fn sp_bits(s: Seq<u8>, off: int) -> Option<(Seq<bool>, int)> {
    match sp_u64(s, off) {
        Option::None => None,
        Option::Some((n, o)) => if o + n <= s.len() {
            Some((Seq::new(n as nat, |i: int| s[o + i] == 1), o + n))
        } else {
            None
        },
    }
}

pub open spec fn sp_sig(s: Seq<u8>, off: int) -> Option<(Signature, int)> {
    match sp_hash(s, off) {
        Option::None => None,
        Option::Some((msg_root, o1)) => match sp_u64(s, o1) {
            Option::None => None,
            Option::Some((domain, o2)) => match sp_u64(s, o2) {
                Option::None => None,
                Option::Some((signer, o3)) => Some((Signature { msg_root, domain, signer }, o3)),
            },
        },
    }
}

pub open spec fn sp_agg(s: Seq<u8>, off: int) -> Option<(AggregateSignature, int)> {
    match sp_hash(s, off) {
        Option::None => None,
        Option::Some((msg_root, o1)) => match sp_u64(s, o1) {
            Option::None => None,
            Option::Some((domain, o2)) => Some((AggregateSignature { msg_root, domain }, o2)),
        },
    }
}

pub open spec fn sp_att_data(s: Seq<u8>, off: int) -> Option<(ShardAttestationData, int)> {
    match sp_u64(s, off) {
        Option::None => None,
        Option::Some((shard, o1)) => match sp_u64(s, o1) {
            Option::None => None,
            Option::Some((target_slot, o2)) => match sp_hash(s, o2) {
                Option::None => None,
                Option::Some((target_root, o3)) => Some(
                    (ShardAttestationData { shard, target_slot, target_root }, o3),
                ),
            },
        },
    }
}

pub open spec fn sp_att(s: Seq<u8>, off: int) -> Option<(ShardAttestationView, int)> {
    match sp_att_data(s, off) {
        Option::None => None,
        Option::Some((data, o1)) => match sp_bits(s, o1) {
            Option::None => None,
            Option::Some((bits, o2)) => match sp_agg(s, o2) {
                Option::None => None,
                Option::Some((signature, o3)) => Some(
                    (ShardAttestationView { bits, data, signature }, o3),
                ),
            },
        },
    }
}

pub open spec fn sp_att_seq(s: Seq<u8>, off: int, count: u64) -> Option<
    (Seq<ShardAttestationView>, int),
>
    decreases count,
{
    if count == 0 {
        Some((Seq::empty(), off))
    } else {
        match sp_att(s, off) {
            Option::None => None,
            Option::Some((a, o1)) => match sp_att_seq(s, o1, (count - 1) as u64) {
                Option::None => None,
                Option::Some((rest, o2)) => Some((seq![a] + rest, o2)),
            },
        }
    }
}

pub open spec fn sp_att_list(s: Seq<u8>, off: int) -> Option<(Seq<ShardAttestationView>, int)> {
    match sp_u64(s, off) {
        Option::None => None,
        Option::Some((n, o)) => sp_att_seq(s, o, n),
    }
}

pub open spec fn sp_block(s: Seq<u8>, off: int) -> Option<(ShardBlockView, int)> {
    match sp_u64(s, off) {
        Option::None => None,
        Option::Some((slot, o1)) => match sp_u64(s, o1) {
            Option::None => None,
            Option::Some((shard, o2)) => match sp_hash(s, o2) {
                Option::None => None,
                Option::Some((parent_root, o3)) => match sp_hash(s, o3) {
                    Option::None => None,
                    Option::Some((beacon_block_root, o4)) => match sp_hash(s, o4) {
                        Option::None => None,
                        Option::Some((state_root, o5)) => match sp_bytes(s, o5) {
                            Option::None => None,
                            Option::Some((body, o6)) => match sp_att_list(s, o6) {
                                Option::None => None,
                                Option::Some((attestation, o7)) => match sp_sig(s, o7) {
                                    Option::None => None,
                                    Option::Some((signature, o8)) => Some(
                                        (
                                        ShardBlockView {
                                            slot,
                                            shard,
                                            parent_root,
                                            beacon_block_root,
                                            state_root,
                                            body,
                                            attestation,
                                            signature,
                                        },
                                        o8,
                                        ),
                                    ),
                                },
                            },
                        },
                    },
                },
            },
        },
    }
}

/// A whole-buffer decode: the parse must consume every byte.
pub open spec fn spec_decode_shard_block(s: Seq<u8>) -> Option<ShardBlockView> {
    match sp_block(s, 0) {
        Option::None => None,
        Option::Some((b, o)) => if o == s.len() {
            Some(b)
        } else {
            None
        },
    }
}

/// The canonical root: the digest of the signature-free encoding.
pub open spec fn spec_canonical_root(b: ShardBlockView) -> Hash256 {
    spec_hash_of_bytes(en_block_unsigned(b))
}

pub open spec fn header_fields_as_block(h: ShardBlockHeaderView) -> ShardBlockView {
    ShardBlockView {
        slot: h.slot,
        shard: h.shard,
        parent_root: h.parent_root,
        beacon_block_root: h.beacon_block_root,
        state_root: h.state_root,
        body: h.body,
        attestation: h.attestation,
        signature: h.signature,
    }
}

// ---------------------------------------------------------------------------
// Round-trip lemmas
// ---------------------------------------------------------------------------

/// If a window of `s` holds `a + b`, the two sub-windows hold `a` and `b`.
proof fn lemma_split(s: Seq<u8>, off: int, a: Seq<u8>, b: Seq<u8>)
    requires
        0 <= off,
        off + a.len() + b.len() <= s.len(),
        s.subrange(off, off + a.len() + b.len()) == a + b,
    ensures
        s.subrange(off, off + a.len()) == a,
        s.subrange(off + a.len(), off + a.len() + b.len()) == b,
{
    let w = s.subrange(off, off + a.len() + b.len());
    assert(s.subrange(off, off + a.len()) =~= a) by {
        assert forall|i: int| 0 <= i < a.len() implies s.subrange(off, off + a.len())[i] == a[i] by {
            assert(s.subrange(off, off + a.len())[i] == s[off + i]);
            assert(w[i] == s[off + i]);
            assert((a + b)[i] == a[i]);
        }
    }
    assert(s.subrange(off + a.len(), off + a.len() + b.len()) =~= b) by {
        assert forall|i: int| 0 <= i < b.len() implies s.subrange(
            off + a.len(),
            off + a.len() + b.len(),
        )[i] == b[i] by {
            assert(s.subrange(off + a.len(), off + a.len() + b.len())[i] == s[off + a.len() + i]);
            assert(w[a.len() + i] == s[off + a.len() + i]);
            assert((a + b)[a.len() + i] == b[i]);
        }
    }
}

proof fn lemma_rt_u64(x: u64, s: Seq<u8>, off: int)
    requires
        0 <= off,
        off + 8 <= s.len(),
        s.subrange(off, off + 8) == en_u64(x),
    ensures
        sp_u64(s, off) == Some((x, off + 8)),
{
    lemma_u64_be_roundtrip(x);
}

proof fn lemma_rt_hash(h: Hash256, s: Seq<u8>, off: int)
    requires
        0 <= off,
        off + 32 <= s.len(),
        s.subrange(off, off + 32) == en_hash(h),
    ensures
        sp_hash(s, off) == Some((h, off + 32)),
{
    Hash256::lemma_bytes_roundtrip(h);
}

proof fn lemma_rt_bytes(b: Seq<u8>, s: Seq<u8>, off: int)
    requires
        0 <= off,
        b.len() <= u64::MAX,
        off + en_bytes(b).len() <= s.len(),
        s.subrange(off, off + en_bytes(b).len()) == en_bytes(b),
    ensures
        sp_bytes(s, off) == Some((b, off + en_bytes(b).len())),
{
    lemma_u64_be_roundtrip(b.len() as u64);
    lemma_split(s, off, en_u64(b.len() as u64), b);
    lemma_rt_u64(b.len() as u64, s, off);
}

proof fn lemma_rt_bits(bits: Seq<bool>, s: Seq<u8>, off: int)
    requires
        0 <= off,
        bits.len() <= u64::MAX,
        off + en_bits(bits).len() <= s.len(),
        s.subrange(off, off + en_bits(bits).len()) == en_bits(bits),
    ensures
        sp_bits(s, off) == Some((bits, off + en_bits(bits).len())),
{
    let payload = Seq::new(
        bits.len(),
        |i: int|
            if bits[i] {
                1u8
            } else {
                0u8
            },
    );
    lemma_u64_be_roundtrip(bits.len() as u64);
    lemma_split(s, off, en_u64(bits.len() as u64), payload);
    lemma_rt_u64(bits.len() as u64, s, off);
    let o = off + 8;
    assert(Seq::new(bits.len(), |i: int| s[o + i] == 1) =~= bits) by {
        assert forall|i: int| 0 <= i < bits.len() implies (s[o + i] == 1) == bits[i] by {
            assert(s.subrange(o, o + payload.len())[i] == s[o + i]);
            assert(payload[i] == (if bits[i] {
                1u8
            } else {
                0u8
            }));
        }
    }
}

proof fn lemma_rt_sig(x: Signature, s: Seq<u8>, off: int)
    requires
        0 <= off,
        off + en_sig(x).len() <= s.len(),
        s.subrange(off, off + en_sig(x).len()) == en_sig(x),
    ensures
        en_sig(x).len() == 48,
        sp_sig(s, off) == Some((x, off + 48)),
{
    Hash256::lemma_bytes_len(x.msg_root);
    lemma_u64_be_roundtrip(x.domain);
    lemma_u64_be_roundtrip(x.signer);
    assert(en_sig(x) =~= en_hash(x.msg_root) + (en_u64(x.domain) + en_u64(x.signer)));
    lemma_split(s, off, en_hash(x.msg_root), en_u64(x.domain) + en_u64(x.signer));
    lemma_rt_hash(x.msg_root, s, off);
    lemma_split(s, off + 32, en_u64(x.domain), en_u64(x.signer));
    lemma_rt_u64(x.domain, s, off + 32);
    lemma_rt_u64(x.signer, s, off + 40);
}

proof fn lemma_rt_agg(x: AggregateSignature, s: Seq<u8>, off: int)
    requires
        0 <= off,
        off + en_agg(x).len() <= s.len(),
        s.subrange(off, off + en_agg(x).len()) == en_agg(x),
    ensures
        en_agg(x).len() == 40,
        sp_agg(s, off) == Some((x, off + 40)),
{
    Hash256::lemma_bytes_len(x.msg_root);
    lemma_u64_be_roundtrip(x.domain);
    lemma_split(s, off, en_hash(x.msg_root), en_u64(x.domain));
    lemma_rt_hash(x.msg_root, s, off);
    lemma_rt_u64(x.domain, s, off + 32);
}

proof fn lemma_rt_att_data(x: ShardAttestationData, s: Seq<u8>, off: int)
    requires
        0 <= off,
        off + en_att_data(x).len() <= s.len(),
        s.subrange(off, off + en_att_data(x).len()) == en_att_data(x),
    ensures
        en_att_data(x).len() == 48,
        sp_att_data(s, off) == Some((x, off + 48)),
{
    Hash256::lemma_bytes_len(x.target_root);
    lemma_u64_be_roundtrip(x.shard);
    lemma_u64_be_roundtrip(x.target_slot);
    assert(en_att_data(x) =~= en_u64(x.shard) + (en_u64(x.target_slot) + en_hash(x.target_root)));
    lemma_split(s, off, en_u64(x.shard), en_u64(x.target_slot) + en_hash(x.target_root));
    lemma_rt_u64(x.shard, s, off);
    lemma_split(s, off + 8, en_u64(x.target_slot), en_hash(x.target_root));
    lemma_rt_u64(x.target_slot, s, off + 8);
    lemma_rt_hash(x.target_root, s, off + 16);
}

proof fn lemma_rt_att(x: ShardAttestationView, s: Seq<u8>, off: int)
    requires
        0 <= off,
        x.bits.len() <= u64::MAX,
        off + en_att(x).len() <= s.len(),
        s.subrange(off, off + en_att(x).len()) == en_att(x),
    ensures
        sp_att(s, off) == Some((x, off + en_att(x).len())),
{
    lemma_u64_be_roundtrip(x.bits.len() as u64);
    assert(en_att(x) =~= en_att_data(x.data) + (en_bits(x.bits) + en_agg(x.signature)));
    lemma_split(s, off, en_att_data(x.data), en_bits(x.bits) + en_agg(x.signature));
    lemma_rt_att_data(x.data, s, off);
    lemma_split(s, off + 48, en_bits(x.bits), en_agg(x.signature));
    lemma_rt_bits(x.bits, s, off + 48);
    lemma_rt_agg(x.signature, s, off + 48 + en_bits(x.bits).len());
}

proof fn lemma_rt_att_seq(atts: Seq<ShardAttestationView>, s: Seq<u8>, off: int)
    requires
        0 <= off,
        atts_wf(atts),
        off + en_att_seq(atts).len() <= s.len(),
        s.subrange(off, off + en_att_seq(atts).len()) == en_att_seq(atts),
    ensures
        sp_att_seq(s, off, atts.len() as u64) == Some((atts, off + en_att_seq(atts).len())),
    decreases atts.len(),
{
    if atts.len() == 0 {
        assert(sp_att_seq(s, off, 0) == Some((Seq::<ShardAttestationView>::empty(), off)));
        assert(atts =~= Seq::<ShardAttestationView>::empty());
    } else {
        let first = atts.first();
        let rest = atts.drop_first();
        assert(atts[0].bits.len() <= u64::MAX);
        assert(atts_wf(rest)) by {
            assert(forall|i: int|
                0 <= i < rest.len() ==> #[trigger] rest[i].bits.len() == atts[i + 1].bits.len());
        }
        lemma_split(s, off, en_att(first), en_att_seq(rest));
        lemma_rt_att(first, s, off);
        lemma_rt_att_seq(rest, s, off + en_att(first).len());
        assert(seq![first] + rest =~= atts);
    }
}

proof fn lemma_rt_att_list(atts: Seq<ShardAttestationView>, s: Seq<u8>, off: int)
    requires
        0 <= off,
        atts_wf(atts),
        off + en_att_list(atts).len() <= s.len(),
        s.subrange(off, off + en_att_list(atts).len()) == en_att_list(atts),
    ensures
        sp_att_list(s, off) == Some((atts, off + en_att_list(atts).len())),
{
    lemma_u64_be_roundtrip(atts.len() as u64);
    lemma_split(s, off, en_u64(atts.len() as u64), en_att_seq(atts));
    lemma_rt_u64(atts.len() as u64, s, off);
    lemma_rt_att_seq(atts, s, off + 8);
}

#[verifier::rlimit(100)]
#[verifier::spinoff_prover]
proof fn lemma_rt_block(b: ShardBlockView, s: Seq<u8>, off: int)
    requires
        0 <= off,
        block_view_wf(b),
        off + en_block(b).len() <= s.len(),
        s.subrange(off, off + en_block(b).len()) == en_block(b),
    ensures
        sp_block(s, off) == Some((b, off + en_block(b).len())),
{
    lemma_u64_be_roundtrip(b.slot);
    lemma_u64_be_roundtrip(b.shard);
    Hash256::lemma_bytes_len(b.parent_root);
    Hash256::lemma_bytes_len(b.beacon_block_root);
    Hash256::lemma_bytes_len(b.state_root);
    let t_body = en_bytes(b.body);
    let t_atts = en_att_list(b.attestation);
    let t_sig = en_sig(b.signature);
    let r1 = en_u64(b.shard) + (en_hash(b.parent_root) + (en_hash(b.beacon_block_root) + (en_hash(
        b.state_root,
    ) + (t_body + (t_atts + t_sig)))));
    assert(en_block(b) =~= en_u64(b.slot) + r1);
    lemma_split(s, off, en_u64(b.slot), r1);
    lemma_rt_u64(b.slot, s, off);
    let o1 = off + 8;
    let r2 = en_hash(b.parent_root) + (en_hash(b.beacon_block_root) + (en_hash(b.state_root) + (
    t_body + (t_atts + t_sig))));
    assert(r1 =~= en_u64(b.shard) + r2);
    lemma_split(s, o1, en_u64(b.shard), r2);
    lemma_rt_u64(b.shard, s, o1);
    let o2 = o1 + 8;
    let r3 = en_hash(b.beacon_block_root) + (en_hash(b.state_root) + (t_body + (t_atts + t_sig)));
    assert(r2 =~= en_hash(b.parent_root) + r3);
    lemma_split(s, o2, en_hash(b.parent_root), r3);
    lemma_rt_hash(b.parent_root, s, o2);
    let o3 = o2 + 32;
    let r4 = en_hash(b.state_root) + (t_body + (t_atts + t_sig));
    assert(r3 =~= en_hash(b.beacon_block_root) + r4);
    lemma_split(s, o3, en_hash(b.beacon_block_root), r4);
    lemma_rt_hash(b.beacon_block_root, s, o3);
    let o4 = o3 + 32;
    let r5 = t_body + (t_atts + t_sig);
    assert(r4 =~= en_hash(b.state_root) + r5);
    lemma_split(s, o4, en_hash(b.state_root), r5);
    lemma_rt_hash(b.state_root, s, o4);
    let o5 = o4 + 32;
    let r6 = t_atts + t_sig;
    assert(r5 =~= t_body + r6);
    lemma_split(s, o5, t_body, r6);
    lemma_rt_bytes(b.body, s, o5);
    let o6 = o5 + t_body.len();
    lemma_split(s, o6, t_atts, t_sig);
    lemma_rt_att_list(b.attestation, s, o6);
    let o7 = o6 + t_atts.len();
    lemma_rt_sig(b.signature, s, o7);
}

/// Decoding the encoding of any well-formed block view yields that view:
/// the codec loses nothing, and the canonical root computed before an
/// encode/decode round trip equals the root computed after it.
pub proof fn lemma_shard_block_roundtrip(b: ShardBlockView)
    ensures
        block_view_wf(b) ==> spec_decode_shard_block(en_block(b)) == Some(b),
        block_view_wf(b) ==> (match spec_decode_shard_block(en_block(b)) {
            Option::Some(d) => spec_canonical_root(d) == spec_canonical_root(b),
            Option::None => false,
        }),
{
    if block_view_wf(b) {
        let s = en_block(b);
        assert(s.subrange(0, en_block(b).len() as int) =~= en_block(b));
        lemma_rt_block(b, s, 0);
    }
}

/// The fixed-width attestation-data encoding loses nothing, so equal
/// encodings mean equal data.
pub proof fn lemma_en_att_data_injective(d1: ShardAttestationData, d2: ShardAttestationData)
    ensures
        en_att_data(d1) == en_att_data(d2) ==> d1 == d2,
{
    if en_att_data(d1) == en_att_data(d2) {
        let s = en_att_data(d1);
        lemma_u64_be_roundtrip(d1.shard);
        lemma_u64_be_roundtrip(d1.target_slot);
        Hash256::lemma_bytes_len(d1.target_root);
        assert(s.subrange(0, en_att_data(d1).len() as int) =~= en_att_data(d1));
        lemma_rt_att_data(d1, s, 0);
        assert(s.subrange(0, en_att_data(d2).len() as int) =~= en_att_data(d2));
        lemma_rt_att_data(d2, s, 0);
    }
}

// ---------------------------------------------------------------------------
// Executable encoders
// ---------------------------------------------------------------------------

fn push_hash(out: &mut Vec<u8>, h: &Hash256)
    ensures
        final(out)@ == old(out)@ + en_hash(*h),
{
    h.push_bytes(out);
}

fn push_bytes_field(out: &mut Vec<u8>, b: &Vec<u8>)
    ensures
        final(out)@ == old(out)@ + en_bytes(b@),
{
    push_u64_be(out, b.len() as u64);
    let ghost mid = out@;
    let mut i: usize = 0;
    while i < b.len()
        invariant
            i <= b@.len(),
            out@ == mid + b@.take(i as int),
        decreases b@.len() - i,
    {
        proof {
            assert(b@.take(i + 1) =~= b@.take(i as int).push(b@[i as int]));
        }
        out.push(b[i]);
        i = i + 1;
    }
    proof {
        assert(b@.take(b@.len() as int) =~= b@);
        assert(out@ =~= old(out)@ + en_bytes(b@));
    }
}

fn push_bits(out: &mut Vec<u8>, bits: &Bitfield)
    ensures
        final(out)@ == old(out)@ + en_bits(bits@),
{
    let n = bits.len();
    push_u64_be(out, n as u64);
    let ghost mid = out@;
    let ghost payload = Seq::new(
        bits@.len(),
        |i: int|
            if bits@[i] {
                1u8
            } else {
                0u8
            },
    );
    let mut i: usize = 0;
    while i < n
        invariant
            n == bits@.len(),
            i <= n,
            payload == Seq::new(
                bits@.len(),
                |j: int|
                    if bits@[j] {
                        1u8
                    } else {
                        0u8
                    },
            ),
            out@ == mid + payload.take(i as int),
        decreases n - i,
    {
        proof {
            assert(payload.take(i + 1) =~= payload.take(i as int).push(payload[i as int]));
        }
        if bits.get(i) {
            out.push(1);
        } else {
            out.push(0);
        }
        i = i + 1;
    }
    proof {
        assert(payload.take(n as int) =~= payload);
        assert(out@ =~= old(out)@ + en_bits(bits@));
    }
}

fn push_sig(out: &mut Vec<u8>, s: &Signature)
    ensures
        final(out)@ == old(out)@ + en_sig(*s),
{
    push_hash(out, &s.msg_root);
    push_u64_be(out, s.domain);
    push_u64_be(out, s.signer);
    proof {
        assert(out@ =~= old(out)@ + en_sig(*s));
    }
}

fn push_agg(out: &mut Vec<u8>, s: &AggregateSignature)
    ensures
        final(out)@ == old(out)@ + en_agg(*s),
{
    push_hash(out, &s.msg_root);
    push_u64_be(out, s.domain);
    proof {
        assert(out@ =~= old(out)@ + en_agg(*s));
    }
}

pub fn encode_att_data(d: &ShardAttestationData) -> (r: Vec<u8>)
    ensures
        r@ == en_att_data(*d),
{
    let mut out: Vec<u8> = Vec::new();
    push_u64_be(&mut out, d.shard);
    push_u64_be(&mut out, d.target_slot);
    push_hash(&mut out, &d.target_root);
    proof {
        assert(out@ =~= en_att_data(*d));
    }
    out
}

fn push_att(out: &mut Vec<u8>, a: &ShardAttestation)
    ensures
        final(out)@ == old(out)@ + en_att(a@),
{
    push_u64_be(out, a.data.shard);
    push_u64_be(out, a.data.target_slot);
    push_hash(out, &a.data.target_root);
    push_bits(out, &a.aggregation_bitfield);
    push_agg(out, &a.signature);
    proof {
        assert(out@ =~= old(out)@ + en_att(a@));
    }
}

proof fn lemma_en_att_seq_push(atts: Seq<ShardAttestationView>, a: ShardAttestationView)
    ensures
        en_att_seq(atts.push(a)) == en_att_seq(atts) + en_att(a),
    decreases atts.len(),
{
    if atts.len() == 0 {
        reveal_with_fuel(en_att_seq, 3);
        assert(atts.push(a).first() == a);
        assert(atts.push(a).drop_first() =~= Seq::<ShardAttestationView>::empty());
        assert(en_att_seq(atts.push(a)) =~= en_att(a));
        assert(en_att_seq(atts) + en_att(a) =~= en_att(a));
    } else {
        assert(atts.push(a).first() == atts.first());
        assert(atts.push(a).drop_first() =~= atts.drop_first().push(a));
        lemma_en_att_seq_push(atts.drop_first(), a);
        assert(en_att_seq(atts.push(a)) =~= en_att_seq(atts) + en_att(a));
    }
}

fn push_att_list(out: &mut Vec<u8>, atts: &Vec<ShardAttestation>)
    ensures
        final(out)@ == old(out)@ + en_att_list(views_of_atts(atts@)),
{
    let n = atts.len();
    push_u64_be(out, n as u64);
    let ghost mid = out@;
    let ghost vs = views_of_atts(atts@);
    let mut i: usize = 0;
    while i < n
        invariant
            n == atts@.len(),
            i <= n,
            vs == views_of_atts(atts@),
            vs.len() == n,
            out@ == mid + en_att_seq(vs.take(i as int)),
        decreases n - i,
    {
        proof {
            lemma_en_att_seq_push(vs.take(i as int), vs[i as int]);
            assert(vs.take(i + 1) =~= vs.take(i as int).push(vs[i as int]));
        }
        push_att(out, &atts[i]);
        i = i + 1;
    }
    proof {
        assert(vs.take(n as int) =~= vs);
        assert(out@ =~= old(out)@ + en_att_list(vs));
    }
}

/// The views of an attestation list.
pub open spec fn views_of_atts(v: Seq<ShardAttestation>) -> Seq<ShardAttestationView> {
    Seq::new(v.len(), |i: int| v[i]@)
}

fn encode_parts(
    slot: u64,
    shard: u64,
    parent_root: &Hash256,
    beacon_block_root: &Hash256,
    state_root: &Hash256,
    body: &Vec<u8>,
    attestation: &Vec<ShardAttestation>,
) -> (r: Vec<u8>)
    ensures
        r@ == en_u64(slot) + en_u64(shard) + en_hash(*parent_root) + en_hash(*beacon_block_root)
            + en_hash(*state_root) + en_bytes(body@) + en_att_list(views_of_atts(attestation@)),
{
    let mut out: Vec<u8> = Vec::new();
    push_u64_be(&mut out, slot);
    push_u64_be(&mut out, shard);
    push_hash(&mut out, parent_root);
    push_hash(&mut out, beacon_block_root);
    push_hash(&mut out, state_root);
    push_bytes_field(&mut out, body);
    push_att_list(&mut out, attestation);
    proof {
        assert(out@ =~= en_u64(slot) + en_u64(shard) + en_hash(*parent_root) + en_hash(
            *beacon_block_root,
        ) + en_hash(*state_root) + en_bytes(body@) + en_att_list(views_of_atts(attestation@)));
    }
    out
}

/// The signature-free encoding of a block.
pub fn encode_shard_block_unsigned(b: &ShardBlock) -> (r: Vec<u8>)
    ensures
        r@ == en_block_unsigned(b@),
{
    let r = encode_parts(
        b.slot,
        b.shard,
        &b.parent_root,
        &b.beacon_block_root,
        &b.state_root,
        &b.body,
        &b.attestation,
    );
    proof {
        assert(views_of_atts(b.attestation@) =~= b@.attestation);
    }
    r
}

/// The wire encoding of a block.
pub fn encode_shard_block(b: &ShardBlock) -> (r: Vec<u8>)
    ensures
        r@ == en_block(b@),
{
    let mut out = encode_shard_block_unsigned(b);
    push_sig(&mut out, &b.signature);
    out
}

// ---------------------------------------------------------------------------
// Executable parsers
// ---------------------------------------------------------------------------

fn parse_u64(s: &Vec<u8>, off: usize) -> (r: Option<(u64, usize)>)
    ensures
        match r {
            Option::Some((x, o)) => sp_u64(s@, off as int) == Some((x, o as int)),
            Option::None => sp_u64(s@, off as int) is None,
        },
{
    let n = s.len();
    if off <= n && n - off >= 8 {
        Some((read_u64_be(s, off), off + 8))
    } else {
        None
    }
}

fn parse_hash(s: &Vec<u8>, off: usize) -> (r: Option<(Hash256, usize)>)
    ensures
        match r {
            Option::Some((x, o)) => sp_hash(s@, off as int) == Some((x, o as int)),
            Option::None => sp_hash(s@, off as int) is None,
        },
{
    let n = s.len();
    if off <= n && n - off >= 32 {
        Some((Hash256::read_bytes(s, off), off + 32))
    } else {
        None
    }
}

fn parse_bytes(s: &Vec<u8>, off: usize) -> (r: Option<(Vec<u8>, usize)>)
    ensures
        match r {
            Option::Some((b, o)) => sp_bytes(s@, off as int) matches Some(p) && b@ == p.0 && o
                == p.1,
            Option::None => sp_bytes(s@, off as int) is None,
        },
{
    match parse_u64(s, off) {
        Option::None => None,
        Option::Some((n64, o)) => {
            let total = s.len();
            if n64 <= (total - o) as u64 {
                let count = n64 as usize;
                let mut out: Vec<u8> = Vec::new();
                let mut i: usize = 0;
                while i < count
                    invariant
                        total == s@.len(),
                        o + count <= total,
                        i <= count,
                        out@ == s@.subrange(o as int, o + i),
                    decreases count - i,
                {
                    proof {
                        assert(s@.subrange(o as int, o + i + 1) =~= s@.subrange(
                            o as int,
                            o + i,
                        ).push(s@[o + i]));
                    }
                    out.push(s[o + i]);
                    i = i + 1;
                }
                Some((out, o + count))
            } else {
                None
            }
        },
    }
}

fn parse_bits(s: &Vec<u8>, off: usize) -> (r: Option<(Bitfield, usize)>)
    ensures
        match r {
            Option::Some((b, o)) => sp_bits(s@, off as int) matches Some(p) && b@ == p.0 && o
                == p.1,
            Option::None => sp_bits(s@, off as int) is None,
        },
{
    match parse_u64(s, off) {
        Option::None => None,
        Option::Some((n64, o)) => {
            let total = s.len();
            if n64 <= (total - o) as u64 {
                let count = n64 as usize;
                let mut out: Vec<bool> = Vec::new();
                let mut i: usize = 0;
                while i < count
                    invariant
                        total == s@.len(),
                        o + count <= total,
                        i <= count,
                        out@.len() == i,
                        forall|j: int| 0 <= j < i ==> out@[j] == (s@[o + j] == 1),
                    decreases count - i,
                {
                    out.push(s[o + i] == 1);
                    i = i + 1;
                }
                proof {
                    assert(out@ =~= Seq::new(n64 as nat, |j: int| s@[o + j] == 1));
                }
                Some((Bitfield { bits: out }, o + count))
            } else {
                None
            }
        },
    }
}

fn parse_sig(s: &Vec<u8>, off: usize) -> (r: Option<(Signature, usize)>)
    ensures
        match r {
            Option::Some((x, o)) => sp_sig(s@, off as int) == Some((x, o as int)),
            Option::None => sp_sig(s@, off as int) is None,
        },
{
    match parse_hash(s, off) {
        Option::None => None,
        Option::Some((msg_root, o1)) => match parse_u64(s, o1) {
            Option::None => None,
            Option::Some((domain, o2)) => match parse_u64(s, o2) {
                Option::None => None,
                Option::Some((signer, o3)) => Some((Signature { msg_root, domain, signer }, o3)),
            },
        },
    }
}

fn parse_agg(s: &Vec<u8>, off: usize) -> (r: Option<(AggregateSignature, usize)>)
    ensures
        match r {
            Option::Some((x, o)) => sp_agg(s@, off as int) == Some((x, o as int)),
            Option::None => sp_agg(s@, off as int) is None,
        },
{
    match parse_hash(s, off) {
        Option::None => None,
        Option::Some((msg_root, o1)) => match parse_u64(s, o1) {
            Option::None => None,
            Option::Some((domain, o2)) => Some((AggregateSignature { msg_root, domain }, o2)),
        },
    }
}

fn parse_att_data(s: &Vec<u8>, off: usize) -> (r: Option<(ShardAttestationData, usize)>)
    ensures
        match r {
            Option::Some((x, o)) => sp_att_data(s@, off as int) == Some((x, o as int)),
            Option::None => sp_att_data(s@, off as int) is None,
        },
{
    match parse_u64(s, off) {
        Option::None => None,
        Option::Some((shard, o1)) => match parse_u64(s, o1) {
            Option::None => None,
            Option::Some((target_slot, o2)) => match parse_hash(s, o2) {
                Option::None => None,
                Option::Some((target_root, o3)) => Some(
                    (ShardAttestationData { shard, target_slot, target_root }, o3),
                ),
            },
        },
    }
}

fn parse_att(s: &Vec<u8>, off: usize) -> (r: Option<(ShardAttestation, usize)>)
    ensures
        match r {
            Option::Some((a, o)) => sp_att(s@, off as int) matches Some(p) && a@ == p.0 && o == p.1,
            Option::None => sp_att(s@, off as int) is None,
        },
{
    match parse_att_data(s, off) {
        Option::None => None,
        Option::Some((data, o1)) => match parse_bits(s, o1) {
            Option::None => None,
            Option::Some((aggregation_bitfield, o2)) => match parse_agg(s, o2) {
                Option::None => None,
                Option::Some((signature, o3)) => Some(
                    (ShardAttestation { aggregation_bitfield, data, signature }, o3),
                ),
            },
        },
    }
}

fn parse_att_list(s: &Vec<u8>, off: usize) -> (r: Option<(Vec<ShardAttestation>, usize)>)
    ensures
        match r {
            Option::Some((atts, o)) => sp_att_list(s@, off as int) matches Some(p) && views_of_atts(
                atts@,
            ) == p.0 && o == p.1,
            Option::None => sp_att_list(s@, off as int) is None,
        },
{
    match parse_u64(s, off) {
        Option::None => None,
        Option::Some((count, o0)) => {
            let mut out: Vec<ShardAttestation> = Vec::new();
            let mut cur: usize = o0;
            let mut i: u64 = 0;
            proof {
                let sp = sp_att_seq(s@, o0 as int, count);
                if sp is Some {
                    assert(views_of_atts(out@) + sp->Some_0.0 =~= sp->Some_0.0);
                }
            }
            loop
                invariant
                    sp_u64(s@, off as int) == Some((count, o0 as int)),
                    i <= count,
                    out@.len() == i,
                    sp_att_seq(s@, o0 as int, count) == (match sp_att_seq(
                        s@,
                        cur as int,
                        (count - i) as u64,
                    ) {
                        Option::None => None::<(Seq<ShardAttestationView>, int)>,
                        Option::Some((rest, o)) => Some((views_of_atts(out@) + rest, o)),
                    }),
                decreases count - i,
            {
                if i == count {
                    proof {
                        assert(sp_att_seq(s@, cur as int, 0) == Some(
                            (Seq::<ShardAttestationView>::empty(), cur as int),
                        ));
                        assert(views_of_atts(out@) + Seq::<ShardAttestationView>::empty()
                            =~= views_of_atts(out@));
                        assert(sp_att_list(s@, off as int) == sp_att_seq(s@, o0 as int, count));
                        assert(sp_att_seq(s@, o0 as int, count) == Some(
                            (views_of_atts(out@), cur as int),
                        ));
                    }
                    return Some((out, cur));
                }
                match parse_att(s, cur) {
                    Option::None => {
                        proof {
                            assert(sp_att_seq(s@, cur as int, (count - i) as u64) is None);
                        }
                        return None;
                    },
                    Option::Some((a, o2)) => {
                        let ghost pre = out@;
                        out.push(a);
                        proof {
                            let rest_count = (count - i) as u64;
                            assert(sp_att_seq(s@, cur as int, rest_count) == (match sp_att_seq(
                                s@,
                                o2 as int,
                                (rest_count - 1) as u64,
                            ) {
                                Option::None => None::<(Seq<ShardAttestationView>, int)>,
                                Option::Some((rest, o)) => Some((seq![a@] + rest, o)),
                            }));
                            assert(views_of_atts(out@) =~= views_of_atts(pre).push(a@));
                            assert forall|rest: Seq<ShardAttestationView>|
                                true implies views_of_atts(pre) + (seq![a@] + rest) == views_of_atts(
                                out@,
                            ) + rest by {
                                assert(views_of_atts(pre) + (seq![a@] + rest) =~= views_of_atts(
                                    out@,
                                ) + rest);
                            }
                        }
                        cur = o2;
                        i = i + 1;
                    },
                }
            }
        },
    }
}

/// Decodes a wire encoding; the buffer must hold exactly one block.
pub fn decode_shard_block(s: &Vec<u8>) -> (r: Option<ShardBlock>)
    ensures
        match r {
            Option::Some(b) => spec_decode_shard_block(s@) matches Some(v) && b@ == v,
            Option::None => spec_decode_shard_block(s@) is None,
        },
{
    match parse_u64(s, 0) {
        Option::None => None,
        Option::Some((slot, o1)) => match parse_u64(s, o1) {
            Option::None => None,
            Option::Some((shard, o2)) => match parse_hash(s, o2) {
                Option::None => None,
                Option::Some((parent_root, o3)) => match parse_hash(s, o3) {
                    Option::None => None,
                    Option::Some((beacon_block_root, o4)) => match parse_hash(s, o4) {
                        Option::None => None,
                        Option::Some((state_root, o5)) => match parse_bytes(s, o5) {
                            Option::None => None,
                            Option::Some((body, o6)) => match parse_att_list(s, o6) {
                                Option::None => None,
                                Option::Some((attestation, o7)) => match parse_sig(s, o7) {
                                    Option::None => None,
                                    Option::Some((signature, o8)) => {
                                        if o8 == s.len() {
                                            let b = ShardBlock {
                                                slot,
                                                shard,
                                                parent_root,
                                                beacon_block_root,
                                                state_root,
                                                body,
                                                attestation,
                                                signature,
                                            };
                                            proof {
                                                assert(b@.attestation =~= views_of_atts(
                                                    b.attestation@,
                                                ));
                                            }
                                            Some(b)
                                        } else {
                                            None
                                        }
                                    },
                                },
                            },
                        },
                    },
                },
            },
        },
    }
}

// ---------------------------------------------------------------------------
// Canonical roots
// ---------------------------------------------------------------------------

impl ShardBlock {
    /// The identity of the block: the digest of its signature-free encoding.
    pub fn canonical_root(&self) -> (r: Hash256)
        ensures
            r == spec_canonical_root(self@),
    {
        let bytes = encode_shard_block_unsigned(self);
        hash_of_bytes(&bytes)
    }
}

impl ShardBlockHeader {
    /// The identity of the header, equal to the root of the block carrying
    /// the same fields.
    pub fn canonical_root(&self) -> (r: Hash256)
        ensures
            r == spec_canonical_root(header_fields_as_block(self@)),
    {
        let bytes = encode_parts(
            self.slot,
            self.shard,
            &self.parent_root,
            &self.beacon_block_root,
            &self.state_root,
            &self.body,
            &self.attestation,
        );
        proof {
            assert(views_of_atts(self.attestation@) =~= header_fields_as_block(self@).attestation);
        }
        hash_of_bytes(&bytes)
    }
}

} // verus!
