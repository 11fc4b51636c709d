//! A 256-bit root: the identity of blocks, states and deposit leaves.
//!
//! The value is held as four `u64` limbs, most significant first, so that
//! comparing the limb tuple lexicographically agrees with comparing the
//! canonical 32-byte big-endian form byte by byte.

use vstd::prelude::*;
use crate::bytes_util::{
    lemma_u64_be_roundtrip, push_u64_be, read_u64_be, spec_u64_be, spec_u64_from_be,
};

verus! {

#[derive(Clone, Copy, PartialEq, Eq, Structural, Hash, Debug)]
pub struct Hash256 {
    /// Most significant eight bytes.
    pub l0: u64,
    pub l1: u64,
    pub l2: u64,
    /// Least significant eight bytes.
    pub l3: u64,
}

impl Hash256 {
    pub open spec fn spec_zero() -> Hash256 {
        Hash256 { l0: 0, l1: 0, l2: 0, l3: 0 }
    }

    /// The canonical 32-byte big-endian form.
    pub open spec fn spec_bytes(self) -> Seq<u8> {
        spec_u64_be(self.l0) + spec_u64_be(self.l1) + spec_u64_be(self.l2) + spec_u64_be(self.l3)
    }

    pub open spec fn spec_from_bytes(s: Seq<u8>) -> Hash256 {
        Hash256 {
            l0: spec_u64_from_be(s.subrange(0, 8)),
            l1: spec_u64_from_be(s.subrange(8, 16)),
            l2: spec_u64_from_be(s.subrange(16, 24)),
            l3: spec_u64_from_be(s.subrange(24, 32)),
        }
    }

    /// `a` is strictly greater than `b` as a 32-byte big-endian string.
    pub open spec fn spec_lex_gt(a: Hash256, b: Hash256) -> bool {
        ||| a.l0 > b.l0
        ||| (a.l0 == b.l0 && a.l1 > b.l1)
        ||| (a.l0 == b.l0 && a.l1 == b.l1 && a.l2 > b.l2)
        ||| (a.l0 == b.l0 && a.l1 == b.l1 && a.l2 == b.l2 && a.l3 > b.l3)
    }

    pub fn zero() -> (r: Hash256)
        ensures
            r == Hash256::spec_zero(),
    {
        Hash256 { l0: 0, l1: 0, l2: 0, l3: 0 }
    }

    /// A root whose least significant limb is `low`; convenient for tests.
    pub fn from_low_u64(low: u64) -> (r: Hash256)
        ensures
            r == (Hash256 { l0: 0, l1: 0, l2: 0, l3: low }),
    {
        Hash256 { l0: 0, l1: 0, l2: 0, l3: low }
    }

    pub fn is_zero(&self) -> (r: bool)
        ensures
            r == (*self == Hash256::spec_zero()),
    {
        self.l0 == 0 && self.l1 == 0 && self.l2 == 0 && self.l3 == 0
    }

    pub fn eq_root(&self, other: &Hash256) -> (r: bool)
        ensures
            r == (*self == *other),
    {
        self.l0 == other.l0 && self.l1 == other.l1 && self.l2 == other.l2 && self.l3 == other.l3
    }

    pub fn lex_gt(&self, other: &Hash256) -> (r: bool)
        ensures
            r == Hash256::spec_lex_gt(*self, *other),
    {
        if self.l0 != other.l0 {
            self.l0 > other.l0
        } else if self.l1 != other.l1 {
            self.l1 > other.l1
        } else if self.l2 != other.l2 {
            self.l2 > other.l2
        } else {
            self.l3 > other.l3
        }
    }

    /// Appends the canonical 32-byte form to `out`.
    pub fn push_bytes(&self, out: &mut Vec<u8>)
        ensures
            final(out)@ == old(out)@ + self.spec_bytes(),
    {
        push_u64_be(out, self.l0);
        push_u64_be(out, self.l1);
        push_u64_be(out, self.l2);
        push_u64_be(out, self.l3);
        proof {
            assert(out@ =~= old(out)@ + self.spec_bytes());
        }
    }

    pub fn to_bytes(&self) -> (r: Vec<u8>)
        ensures
            r@ == self.spec_bytes(),
            r@.len() == 32,
    {
        let mut out: Vec<u8> = Vec::new();
        self.push_bytes(&mut out);
        proof {
            Self::lemma_bytes_len(*self);
        }
        out
    }

    /// Reads the 32 bytes at `off`, most significant first.
    pub fn read_bytes(s: &Vec<u8>, off: usize) -> (r: Hash256)
        requires
            off + 32 <= s@.len(),
        ensures
            r == Hash256::spec_from_bytes(s@.subrange(off as int, off + 32)),
    {
        let n: usize = s.len();
        let r = Hash256 {
            l0: read_u64_be(s, off),
            l1: read_u64_be(s, off + 8),
            l2: read_u64_be(s, off + 16),
            l3: read_u64_be(s, off + 24),
        };
        proof {
            let w = s@.subrange(off as int, off + 32);
            assert(s@.subrange(off as int, off + 8) =~= w.subrange(0, 8));
            assert(s@.subrange(off + 8, off + 16) =~= w.subrange(8, 16));
            assert(s@.subrange(off + 16, off + 24) =~= w.subrange(16, 24));
            assert(s@.subrange(off + 24, off + 32) =~= w.subrange(24, 32));
        }
        r
    }

    pub proof fn lemma_bytes_len(h: Hash256)
        ensures
            h.spec_bytes().len() == 32,
    {
        lemma_u64_be_roundtrip(h.l0);
        lemma_u64_be_roundtrip(h.l1);
        lemma_u64_be_roundtrip(h.l2);
        lemma_u64_be_roundtrip(h.l3);
    }

    /// Reading back the canonical bytes of `h` yields `h` again.
    pub proof fn lemma_bytes_roundtrip(h: Hash256)
        ensures
            h.spec_bytes().len() == 32,
            Hash256::spec_from_bytes(h.spec_bytes()) == h,
    {
        lemma_u64_be_roundtrip(h.l0);
        lemma_u64_be_roundtrip(h.l1);
        lemma_u64_be_roundtrip(h.l2);
        lemma_u64_be_roundtrip(h.l3);
        assert(h.spec_bytes().subrange(0, 8) =~= spec_u64_be(h.l0));
        assert(h.spec_bytes().subrange(8, 16) =~= spec_u64_be(h.l1));
        assert(h.spec_bytes().subrange(16, 24) =~= spec_u64_be(h.l2));
        assert(h.spec_bytes().subrange(24, 32) =~= spec_u64_be(h.l3));
    }
}

} // verus!
