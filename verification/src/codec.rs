//! Little-endian byte codecs shared by every layer of the hash.

use vstd::prelude::*;

verus! {

/// Little-endian value of four bytes.
pub open spec fn le32(s: Seq<u8>) -> nat
    recommends
        s.len() == 4,
{
    (s[0] + s[1] * 0x100 + s[2] * 0x1_0000 + s[3] * 0x100_0000) as nat
}

/// Little-endian value of eight bytes.
pub open spec fn le64(s: Seq<u8>) -> nat
    recommends
        s.len() == 8,
{
    (s[0] + s[1] * 0x100 + s[2] * 0x1_0000 + s[3] * 0x100_0000 + s[4] * 0x1_0000_0000 + s[5]
        * 0x100_0000_0000 + s[6] * 0x1_0000_0000_0000 + s[7] * 0x100_0000_0000_0000) as nat
}

/// Little-endian value of sixteen bytes.
pub open spec fn le128(s: Seq<u8>) -> nat
    recommends
        s.len() == 16,
{
    (le64(s.subrange(0, 8)) + le64(s.subrange(8, 16)) * 0x1_0000_0000_0000_0000) as nat
}

/// The eight little-endian bytes of a 64-bit value.
pub open spec fn le64_bytes(x: u64) -> Seq<u8> {
    seq![
        (x % 0x100) as u8,
        ((x / 0x100) % 0x100) as u8,
        ((x / 0x1_0000) % 0x100) as u8,
        ((x / 0x100_0000) % 0x100) as u8,
        ((x / 0x1_0000_0000) % 0x100) as u8,
        ((x / 0x100_0000_0000) % 0x100) as u8,
        ((x / 0x1_0000_0000_0000) % 0x100) as u8,
        ((x / 0x100_0000_0000_0000) % 0x100) as u8,
    ]
}

/// A byte sequence read as a sequence of little-endian 32-bit words.
pub open spec fn words_of(b: Seq<u8>) -> Seq<u32>
    recommends
        b.len() % 4 == 0,
{
    Seq::new(b.len() / 4, |i: int| le32(b.subrange(4 * i, 4 * i + 4)) as u32)
}

/// Serializing a 64-bit value and reading it back is the identity.
pub proof fn lemma_le64_bytes_roundtrip(x: u64)
    ensures
        le64_bytes(x).len() == 8,
        le64(le64_bytes(x)) == x,
{
    let s = le64_bytes(x);
    let t0 = x as int;
    let t1 = t0 / 0x100;
    let t2 = t0 / 0x1_0000;
    let t3 = t0 / 0x100_0000;
    let t4 = t0 / 0x1_0000_0000;
    let t5 = t0 / 0x100_0000_0000;
    let t6 = t0 / 0x1_0000_0000_0000;
    let t7 = t0 / 0x100_0000_0000_0000;
    vstd::arithmetic::div_mod::lemma_div_denominator(t0, 0x100, 0x100);
    vstd::arithmetic::div_mod::lemma_div_denominator(t0, 0x1_0000, 0x100);
    vstd::arithmetic::div_mod::lemma_div_denominator(t0, 0x100_0000, 0x100);
    vstd::arithmetic::div_mod::lemma_div_denominator(t0, 0x1_0000_0000, 0x100);
    vstd::arithmetic::div_mod::lemma_div_denominator(t0, 0x100_0000_0000, 0x100);
    vstd::arithmetic::div_mod::lemma_div_denominator(t0, 0x1_0000_0000_0000, 0x100);
    assert(t1 / 0x100 == t2);
    assert(t2 / 0x100 == t3);
    assert(t3 / 0x100 == t4);
    assert(t4 / 0x100 == t5);
    assert(t5 / 0x100 == t6);
    assert(t6 / 0x100 == t7);
    assert(t0 == t0 % 0x100 + 0x100 * t1);
    assert(t1 == t1 % 0x100 + 0x100 * t2);
    assert(t2 == t2 % 0x100 + 0x100 * t3);
    assert(t3 == t3 % 0x100 + 0x100 * t4);
    assert(t4 == t4 % 0x100 + 0x100 * t5);
    assert(t5 == t5 % 0x100 + 0x100 * t6);
    assert(t6 == t6 % 0x100 + 0x100 * t7);
    assert(t7 < 0x100);
    assert(t7 % 0x100 == t7);
    assert(le64(s) == t0 % 0x100 + (t1 % 0x100) * 0x100 + (t2 % 0x100) * 0x1_0000 + (t3 % 0x100)
        * 0x100_0000 + (t4 % 0x100) * 0x1_0000_0000 + (t5 % 0x100) * 0x100_0000_0000 + (t6 % 0x100)
        * 0x1_0000_0000_0000 + t7 * 0x100_0000_0000_0000);
}

/// Reads a little-endian 32-bit word at byte offset `off`.
pub fn read_u32_le(b: &[u8], off: usize) -> (r: u32)
    requires
        off + 4 <= b@.len(),
    ensures
        r == le32(b@.subrange(off as int, off as int + 4)),
{
    let r = (b[off] as u32) + (b[off + 1] as u32) * 0x100 + (b[off + 2] as u32) * 0x1_0000 + (b[off
        + 3] as u32) * 0x100_0000;
    proof {
        let s = b@.subrange(off as int, off as int + 4);
        assert(s[0] == b@[off as int]);
        assert(s[1] == b@[off as int + 1]);
        assert(s[2] == b@[off as int + 2]);
        assert(s[3] == b@[off as int + 3]);
    }
    r
}

/// Reads a little-endian 64-bit word at byte offset `off`.
pub fn read_u64_le(b: &[u8], off: usize) -> (r: u64)
    requires
        off + 8 <= b@.len(),
    ensures
        r == le64(b@.subrange(off as int, off as int + 8)),
{
    let r = (b[off] as u64) + (b[off + 1] as u64) * 0x100 + (b[off + 2] as u64) * 0x1_0000 + (b[off
        + 3] as u64) * 0x100_0000 + (b[off + 4] as u64) * 0x1_0000_0000 + (b[off + 5] as u64)
        * 0x100_0000_0000 + (b[off + 6] as u64) * 0x1_0000_0000_0000 + (b[off + 7] as u64)
        * 0x100_0000_0000_0000;
    proof {
        let s = b@.subrange(off as int, off as int + 8);
        assert(s[0] == b@[off as int]);
        assert(s[1] == b@[off as int + 1]);
        assert(s[2] == b@[off as int + 2]);
        assert(s[3] == b@[off as int + 3]);
        assert(s[4] == b@[off as int + 4]);
        assert(s[5] == b@[off as int + 5]);
        assert(s[6] == b@[off as int + 6]);
        assert(s[7] == b@[off as int + 7]);
    }
    r
}

/// Appends the eight little-endian bytes of `x` to `out`.
pub fn push_u64_le(out: &mut Vec<u8>, x: u64)
    ensures
        final(out)@ == old(out)@ + le64_bytes(x),
{
    out.push((x % 0x100) as u8);
    out.push(((x / 0x100) % 0x100) as u8);
    out.push(((x / 0x1_0000) % 0x100) as u8);
    out.push(((x / 0x100_0000) % 0x100) as u8);
    out.push(((x / 0x1_0000_0000) % 0x100) as u8);
    out.push(((x / 0x100_0000_0000) % 0x100) as u8);
    out.push(((x / 0x1_0000_0000_0000) % 0x100) as u8);
    out.push(((x / 0x100_0000_0000_0000) % 0x100) as u8);
    proof {
        assert(out@ =~= old(out)@ + le64_bytes(x));
    }
}

/// Copies `src[start..end]` into a fresh vector.
pub fn copy_range(src: &[u8], start: usize, end: usize) -> (r: Vec<u8>)
    requires
        start <= end <= src@.len(),
    ensures
        r@ == src@.subrange(start as int, end as int),
{
    let mut r: Vec<u8> = Vec::new();
    let mut i: usize = start;
    while i < end
        invariant
            start <= i <= end <= src@.len(),
            r@ == src@.subrange(start as int, i as int),
        decreases end - i,
    {
        r.push(src[i]);
        i = i + 1;
        proof {
            assert(r@ =~= src@.subrange(start as int, i as int));
        }
    }
    r
}

} // verus!
