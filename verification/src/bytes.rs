//! Small verified helpers on byte vectors, and the 4-byte little-endian
//! length encoding used by the chunk framing.

use vstd::prelude::*;

verus! {

/// The four little-endian bytes of `n` (for `n < 2^32`).
pub open spec fn le32_bytes(n: nat) -> Seq<u8> {
    seq![
        (n % 256) as u8,
        ((n / 256) % 256) as u8,
        ((n / 65536) % 256) as u8,
        ((n / 16777216) % 256) as u8,
    ]
}

/// The value read from four little-endian bytes.
pub open spec fn le32_val(s: Seq<u8>) -> nat {
    (s[0] + 256 * (s[1] + 256 * (s[2] + 256 * s[3]))) as nat
}

pub proof fn lemma_le32_roundtrip(n: nat)
    requires
        n < 0x1_0000_0000,
    ensures
        le32_val(le32_bytes(n)) == n,
{
    assert(le32_val(le32_bytes(n)) == n) by (nonlinear_arith)
        requires n < 0x1_0000_0000;
}

/// Copies `v[a..b]` into a fresh vector.
pub fn copy_range(v: &Vec<u8>, a: usize, b: usize) -> (r: Vec<u8>)
    requires
        a <= b <= v@.len(),
    ensures
        r@ == v@.subrange(a as int, b as int),
{
    let mut out: Vec<u8> = Vec::new();
    let mut i: usize = a;
    while i < b
        invariant
            a <= i <= b <= v@.len(),
            out@ == v@.subrange(a as int, i as int),
        decreases b - i,
    {
        out.push(v[i]);
        i = i + 1;
        assert(out@ =~= v@.subrange(a as int, i as int));
    }
    out
}

/// Appends all of `src` to `dst`.
pub fn append_bytes(dst: &mut Vec<u8>, src: &Vec<u8>)
    ensures
        final(dst)@ == old(dst)@ + src@,
{
    let mut i: usize = 0;
    while i < src.len()
        invariant
            i <= src@.len(),
            dst@ == old(dst)@ + src@.subrange(0, i as int),
        decreases src@.len() - i,
    {
        dst.push(src[i]);
        i = i + 1;
        assert(dst@ =~= old(dst)@ + src@.subrange(0, i as int));
    }
    assert(dst@ =~= old(dst)@ + src@);
}

/// Byte-exact comparison of two vectors.
pub fn bytes_eq(a: &Vec<u8>, b: &Vec<u8>) -> (r: bool)
    ensures
        r <==> a@ == b@,
{
    if a.len() != b.len() {
        assert(a@ != b@) by {
            assert(a@.len() != b@.len());
        }
        return false;
    }
    let mut i: usize = 0;
    while i < a.len()
        invariant
            i <= a@.len(),
            a@.len() == b@.len(),
            forall|j: int| 0 <= j < i ==> a@[j] == b@[j],
        decreases a@.len() - i,
    {
        if a[i] != b[i] {
            return false;
        }
        i = i + 1;
    }
    assert(a@ =~= b@);
    true
}

/// Appends the 4-byte little-endian encoding of `n` to `dst`.
pub fn append_le32(dst: &mut Vec<u8>, n: u64)
    requires
        n < 0x1_0000_0000,
    ensures
        final(dst)@ == old(dst)@ + le32_bytes(n as nat),
{
    dst.push((n % 256) as u8);
    dst.push(((n / 256) % 256) as u8);
    dst.push(((n / 65536) % 256) as u8);
    dst.push(((n / 16777216) % 256) as u8);
    assert(dst@ =~= old(dst)@ + le32_bytes(n as nat));
}

/// Reads a 4-byte little-endian value at offset `off`.
pub fn read_le32(v: &Vec<u8>, off: usize) -> (r: u64)
    requires
        off + 4 <= v@.len(),
    ensures
        r == le32_val(v@.subrange(off as int, off as int + 4)),
        r < 0x1_0000_0000,
{
    let len = v.len();
    assert(off + 4 <= len);
    let b0 = v[off] as u64;
    let b1 = v[off + 1] as u64;
    let b2 = v[off + 2] as u64;
    let b3 = v[off + 3] as u64;
    let r = b0 + 256 * (b1 + 256 * (b2 + 256 * b3));
    proof {
        let s = v@.subrange(off as int, off as int + 4);
        assert(s[0] == v@[off as int]);
        assert(s[1] == v@[off as int + 1]);
        assert(s[2] == v@[off as int + 2]);
        assert(s[3] == v@[off as int + 3]);
    }
    r
}

} // verus!
