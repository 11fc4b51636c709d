//! Big-endian byte conversions for `u64`, built on vstd's little-endian
//! primitives.

use vstd::prelude::*;
use vstd::bytes::{spec_u64_from_le_bytes, spec_u64_to_le_bytes, u64_from_le_bytes, u64_to_le_bytes};

verus! {

/// The eight bytes of `x`, most significant first.
pub open spec fn spec_u64_be(x: u64) -> Seq<u8> {
    spec_u64_to_le_bytes(x).reverse()
}

/// The `u64` read from eight bytes, most significant first.
pub open spec fn spec_u64_from_be(s: Seq<u8>) -> u64 {
    spec_u64_from_le_bytes(s.reverse())
}

pub proof fn lemma_u64_be_len(x: u64)
    ensures
        spec_u64_be(x).len() == 8,
{
    vstd::bytes::lemma_auto_spec_u64_to_from_le_bytes();
}

/// Reading back the big-endian bytes of `x` yields `x`, and writing the
/// bytes read from any eight-byte sequence yields that sequence.
pub proof fn lemma_u64_be_roundtrip(x: u64)
    ensures
        spec_u64_be(x).len() == 8,
        spec_u64_from_be(spec_u64_be(x)) == x,
{
    vstd::bytes::lemma_auto_spec_u64_to_from_le_bytes();
    assert(spec_u64_to_le_bytes(x).reverse().reverse() =~= spec_u64_to_le_bytes(x));
}

pub proof fn lemma_u64_be_injective(x: u64, y: u64)
    ensures
        spec_u64_be(x) == spec_u64_be(y) ==> x == y,
{
    lemma_u64_be_roundtrip(x);
    lemma_u64_be_roundtrip(y);
}

/// Byte-for-byte equality of two byte vectors.
pub fn bytes_eq(a: &Vec<u8>, b: &Vec<u8>) -> (r: bool)
    ensures
        r == (a@ == b@),
{
    let n = a.len();
    if n != b.len() {
        proof {
            assert(a@.len() != b@.len());
        }
        return false;
    }
    let mut i: usize = 0;
    while i < n
        invariant
            n == a@.len(),
            n == b@.len(),
            i <= n,
            forall|j: int| 0 <= j < i ==> a@[j] == b@[j],
        decreases n - i,
    {
        if a[i] != b[i] {
            return false;
        }
        i = i + 1;
    }
    proof {
        assert(a@ =~= b@);
    }
    true
}

/// An element-by-element copy of a byte vector.
pub fn copy_bytes(v: &Vec<u8>) -> (r: Vec<u8>)
    ensures
        r@ == v@,
{
    let mut out: Vec<u8> = Vec::new();
    let mut i: usize = 0;
    while i < v.len()
        invariant
            i <= v@.len(),
            out@ == v@.take(i as int),
        decreases v@.len() - i,
    {
        proof {
            assert(v@.take(i + 1) =~= v@.take(i as int).push(v@[i as int]));
        }
        out.push(v[i]);
        i = i + 1;
    }
    proof {
        assert(v@.take(v@.len() as int) =~= v@);
    }
    out
}

/// Appends the eight big-endian bytes of `x` to `out`.
pub fn push_u64_be(out: &mut Vec<u8>, x: u64)
    ensures
        final(out)@ == old(out)@ + spec_u64_be(x),
{
    proof {
        vstd::bytes::lemma_auto_spec_u64_to_from_le_bytes();
    }
    let le = u64_to_le_bytes(x);
    let ghost prefix = out@;
    let mut i: usize = 8;
    while i > 0
        invariant
            le@ == spec_u64_to_le_bytes(x),
            le@.len() == 8,
            i <= 8,
            out@.len() == prefix.len() + 8 - i,
            out@ == prefix + le@.reverse().take(8 - i),
        decreases i,
    {
        let b = le[i - 1];
        out.push(b);
        proof {
            assert(le@.reverse()[7 - (i - 1)] == le@[i - 1]);
            assert(prefix + le@.reverse().take(8 - i + 1)
                =~= (prefix + le@.reverse().take(8 - i)).push(le@[i - 1]));
        }
        i = i - 1;
    }
    proof {
        assert(le@.reverse().take(8) =~= le@.reverse());
    }
}

/// Reads the eight bytes at `off`, most significant first.
pub fn read_u64_be(s: &Vec<u8>, off: usize) -> (x: u64)
    requires
        off + 8 <= s@.len(),
    ensures
        x == spec_u64_from_be(s@.subrange(off as int, off + 8)),
{
    let n: usize = s.len();
    let mut le: Vec<u8> = Vec::new();
    let mut i: usize = 0;
    while i < 8
        invariant
            n == s@.len(),
            off + 8 <= n,
            i <= 8,
            le@.len() == i,
            le@ == s@.subrange(off as int, off + 8).reverse().take(i as int),
        decreases 8 - i,
    {
        let b = s[off + 8 - 1 - i];
        proof {
            let window = s@.subrange(off as int, off + 8);
            assert(window.reverse()[i as int] == window[7 - i]);
            assert(window[7 - i] == s@[off + 7 - i]);
            assert(window.reverse().take(i + 1) =~= window.reverse().take(i as int).push(
                window.reverse()[i as int],
            ));
        }
        le.push(b);
        i = i + 1;
    }
    proof {
        let window = s@.subrange(off as int, off + 8);
        assert(window.reverse().take(8) =~= window.reverse());
    }
    u64_from_le_bytes(le.as_slice())
}

} // verus!
