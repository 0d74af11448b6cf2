//! The NH universal block hash.
//!
//! A 1024-byte message block is processed in 16-byte units; each unit
//! feeds four accumulators (one per pass) through wrapping 32-bit adds
//! and a 64-bit multiply.  The 16-word key window advances by only four
//! words per unit, so consecutive units use overlapping key material:
//! this sliding window is the defining property of the NH construction.

use vstd::prelude::*;

use crate::codec::le64_bytes;
use crate::codec::push_u64_le;
use crate::codec::read_u32_le;
use crate::codec::words_of;

verus! {

pub const NH_NUM_PASSES: usize = 4;

pub const NH_PAIR_STRIDE: usize = 2;

pub const NH_MESSAGE_UNIT: usize = NH_PAIR_STRIDE * 8;

pub const NH_NUM_STRIDES: usize = 64;

pub const NH_MESSAGE_DWORDS: usize = NH_PAIR_STRIDE * 2 * NH_NUM_STRIDES;

pub const NH_MESSAGE_BYTES: usize = NH_MESSAGE_DWORDS * 4;

pub const NH_KEYS_PER_MESSAGE: usize = NH_MESSAGE_BYTES;

pub const NH_KEY_BYTES_PER_MESSAGE: usize = 4 * NH_KEYS_PER_MESSAGE;

pub const NH_OUTPUT_BYTES: usize = 8 * 4;

/// Accumulator of pass `pass` after the first `units` 16-byte units.
///
/// Unit `j` reads message words `ws[4j .. 4j + 4]` against the key
/// window starting at word `4j`; pass `pass` uses key words
/// `4j + 4 pass .. 4j + 4 pass + 4`.  All additions wrap at 32 bits and
/// all sums wrap at 64 bits by construction.
pub open spec fn nh_accum(key: Seq<u32>, ws: Seq<u32>, pass: int, units: int) -> u64
    recommends
        0 <= pass < 4,
        4 * units <= ws.len(),
        4 * (units - 1) + 16 <= key.len(),
    decreases units,
{
    if units <= 0 {
        0u64
    } else {
        let j = units - 1;
        let ab = (ws[4 * j].wrapping_add(key[4 * j + 4 * pass]) as u64).wrapping_mul(
            ws[4 * j + 2].wrapping_add(key[4 * j + 4 * pass + 2]) as u64,
        );
        let cd = (ws[4 * j + 1].wrapping_add(key[4 * j + 4 * pass + 1]) as u64).wrapping_mul(
            ws[4 * j + 3].wrapping_add(key[4 * j + 4 * pass + 3]) as u64,
        );
        nh_accum(key, ws, pass, j).wrapping_add(ab).wrapping_add(cd)
    }
}

/// The 32-byte NH digest of `msg`: the four pass accumulators,
/// serialized in little-endian order.
#[verifier::opaque]
pub open spec fn nh_output(key: Seq<u32>, msg: Seq<u8>) -> Seq<u8>
    recommends
        msg.len() % 16 == 0,
        msg.len() <= NH_MESSAGE_BYTES,
        key.len() == NH_KEYS_PER_MESSAGE,
{
    let ws = words_of(msg);
    let u = msg.len() as int / 16;
    le64_bytes(nh_accum(key, ws, 0, u)) + le64_bytes(nh_accum(key, ws, 1, u)) + le64_bytes(
        nh_accum(key, ws, 2, u),
    ) + le64_bytes(nh_accum(key, ws, 3, u))
}

/// An NH digest is always 32 bytes.
pub proof fn lemma_nh_output_len(key: Seq<u32>, msg: Seq<u8>)
    ensures
        nh_output(key, msg).len() == 32,
{
    reveal(nh_output);
}

/// A keyed NH block hash: 1024 32-bit key words.
pub struct Hash {
    key: Vec<u32>,
}

impl Hash {
    /// The key buffer holds exactly one window run of key words.
    pub closed spec fn wf(self) -> bool {
        self.key@.len() == NH_KEYS_PER_MESSAGE
    }

    /// The key words this hash was built from.
    pub closed spec fn key_words(self) -> Seq<u32> {
        self.key@
    }

    /// Appends the 32-byte NH digest of `msg` to `out`.
    ///
    /// `msg` must be a whole number of 16-byte units and at most one
    /// block; the caller pads shorter inputs.
    #[verifier::rlimit(100)]
    pub fn hash(&self, out: &mut Vec<u8>, msg: &[u8])
        requires
            self.wf(),
            msg@.len() % 16 == 0,
            msg@.len() <= NH_MESSAGE_BYTES,
        ensures
            final(out)@ == old(out)@ + nh_output(self.key_words(), msg@),
            final(out)@.len() == old(out)@.len() + 32,
    {
        let ghost ws = words_of(msg@);
        let units: usize = msg.len() / 16;
        let mut s0: u64 = 0;
        let mut s1: u64 = 0;
        let mut s2: u64 = 0;
        let mut s3: u64 = 0;
        let mut j: usize = 0;
        while j < units
            invariant
                self.wf(),
                msg@.len() % 16 == 0,
                msg@.len() <= NH_MESSAGE_BYTES,
                units == msg@.len() / 16,
                j <= units,
                ws == words_of(msg@),
                s0 == nh_accum(self.key@, ws, 0, j as int),
                s1 == nh_accum(self.key@, ws, 1, j as int),
                s2 == nh_accum(self.key@, ws, 2, j as int),
                s3 == nh_accum(self.key@, ws, 3, j as int),
            decreases units - j,
        {
            let off: usize = j * 16;
            let m0 = read_u32_le(msg, off);
            let m1 = read_u32_le(msg, off + 4);
            let m2 = read_u32_le(msg, off + 8);
            let m3 = read_u32_le(msg, off + 12);
            proof {
                assert(ws[4 * j as int] == m0);
                assert(ws[4 * j as int + 1] == m1);
                assert(ws[4 * j as int + 2] == m2);
                assert(ws[4 * j as int + 3] == m3);
            }
            let ko: usize = j * 4;
            s0 = s0.wrapping_add(
                (m0.wrapping_add(self.key[ko]) as u64).wrapping_mul(
                    m2.wrapping_add(self.key[ko + 2]) as u64,
                ),
            );
            s1 = s1.wrapping_add(
                (m0.wrapping_add(self.key[ko + 4]) as u64).wrapping_mul(
                    m2.wrapping_add(self.key[ko + 6]) as u64,
                ),
            );
            s2 = s2.wrapping_add(
                (m0.wrapping_add(self.key[ko + 8]) as u64).wrapping_mul(
                    m2.wrapping_add(self.key[ko + 10]) as u64,
                ),
            );
            s3 = s3.wrapping_add(
                (m0.wrapping_add(self.key[ko + 12]) as u64).wrapping_mul(
                    m2.wrapping_add(self.key[ko + 14]) as u64,
                ),
            );
            s0 = s0.wrapping_add(
                (m1.wrapping_add(self.key[ko + 1]) as u64).wrapping_mul(
                    m3.wrapping_add(self.key[ko + 3]) as u64,
                ),
            );
            s1 = s1.wrapping_add(
                (m1.wrapping_add(self.key[ko + 5]) as u64).wrapping_mul(
                    m3.wrapping_add(self.key[ko + 7]) as u64,
                ),
            );
            s2 = s2.wrapping_add(
                (m1.wrapping_add(self.key[ko + 9]) as u64).wrapping_mul(
                    m3.wrapping_add(self.key[ko + 11]) as u64,
                ),
            );
            s3 = s3.wrapping_add(
                (m1.wrapping_add(self.key[ko + 13]) as u64).wrapping_mul(
                    m3.wrapping_add(self.key[ko + 15]) as u64,
                ),
            );
            j = j + 1;
        }
        push_u64_le(out, s0);
        push_u64_le(out, s1);
        push_u64_le(out, s2);
        push_u64_le(out, s3);
        proof {
            reveal(nh_output);
            assert(final(out)@ =~= old(out)@ + nh_output(self.key_words(), msg@));
        }
    }
}

/// Builds an NH block hash from 4096 key bytes, read as little-endian
/// 32-bit words.
pub fn new(key: &[u8]) -> (h: Hash)
    requires
        key@.len() == NH_KEY_BYTES_PER_MESSAGE,
    ensures
        h.wf(),
        h.key_words() == words_of(key@),
{
    let mut key_u32: Vec<u32> = Vec::new();
    let mut i: usize = 0;
    while i < NH_KEYS_PER_MESSAGE
        invariant
            key@.len() == NH_KEY_BYTES_PER_MESSAGE,
            i <= NH_KEYS_PER_MESSAGE,
            key_u32@.len() == i,
            forall|k: int| 0 <= k < i ==> key_u32@[k] == words_of(key@)[k],
        decreases NH_KEYS_PER_MESSAGE - i,
    {
        key_u32.push(read_u32_le(key, i * 4));
        i = i + 1;
    }
    proof {
        assert(key_u32@ =~= words_of(key@));
    }
    Hash { key: key_u32 }
}

} // verus!
