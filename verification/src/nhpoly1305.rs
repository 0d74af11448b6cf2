//! The bridge between the NH block hash and the polynomial
//! accumulator.
//!
//! A message is cut into 1024-byte blocks; each block's 32-byte NH
//! digest is appended to a buffer, and every 16 digests the buffer is
//! folded into the accumulator in one call.  The trailing partial block
//! is zero-padded to a 16-byte boundary before its digest is taken.
//! Batching only amortizes the accumulator's per-call overhead: every
//! digest is folded exactly once, in block order.

use vstd::prelude::*;

use crate::codec::copy_range;
use crate::codec::words_of;
use crate::nh;
use crate::poly1305;

verus! {

pub const NHPOLY_KEY_BYTES: usize = poly1305::POLY_KEY_BYTES + nh::NH_KEY_BYTES_PER_MESSAGE;

const NHPOLY_HASHES_PER_POLY: usize = 16;

/// `s` zero-padded to the next 16-byte boundary.
pub open spec fn pad16(s: Seq<u8>) -> Seq<u8> {
    s + Seq::new((((16 - s.len() % 16) % 16) as nat), |i: int| 0u8)
}

/// Padding leaves a sequence already on a 16-byte boundary unchanged:
/// a message of exactly a whole number of units is hashed as it is.
pub proof fn lemma_pad16_aligned(s: Seq<u8>)
    requires
        s.len() % 16 == 0,
    ensures
        pad16(s) == s,
{
    assert(pad16(s) =~= s);
}

/// The concatenated NH digests of the 1024-byte blocks of `msg`, the
/// trailing block (at most 1024 bytes, zero-padded to a 16-byte
/// boundary) included.
pub open spec fn nh_digests(kw: Seq<u32>, msg: Seq<u8>) -> Seq<u8>
    decreases msg.len(),
{
    if msg.len() == 0 {
        Seq::empty()
    } else if msg.len() > nh::NH_MESSAGE_BYTES {
        nh::nh_output(kw, msg.subrange(0, nh::NH_MESSAGE_BYTES as int)) + nh_digests(
            kw,
            msg.subrange(nh::NH_MESSAGE_BYTES as int, msg.len() as int),
        )
    } else {
        nh::nh_output(kw, pad16(msg))
    }
}

/// The 16-byte combined digest: the accumulator, keyed by the first 16
/// key bytes, folded over the NH digests of `msg` under the remaining
/// 4096 key bytes.
pub open spec fn combine(poly_key: Seq<u8>, nh_key: Seq<u8>, msg: Seq<u8>) -> Seq<u8> {
    poly1305::poly_out(
        poly1305::poly_blocks(
            poly1305::clamp(poly_key),
            poly1305::zero_state(),
            nh_digests(words_of(nh_key), msg),
        ),
    )
}

/// The accumulator that `combine` serializes evaluates the polynomial
/// of the NH digest stream: its residue modulo the field prime is the
/// polynomial value, at the clamped key, of the concatenated NH block
/// digests of the message, starting from zero.
pub proof fn lemma_combine_is_polynomial(poly_key: Seq<u8>, nh_key: Seq<u8>, msg: Seq<u8>)
    ensures
        combine(poly_key, nh_key, msg) == poly1305::poly_out(
            poly1305::poly_blocks(
                poly1305::clamp(poly_key),
                poly1305::zero_state(),
                nh_digests(words_of(nh_key), msg),
            ),
        ),
        poly1305::limb_val(
            poly1305::poly_blocks(
                poly1305::clamp(poly_key),
                poly1305::zero_state(),
                nh_digests(words_of(nh_key), msg),
            ),
        ) % poly1305::p1305() == poly1305::poly_eval(
            poly1305::key_val(poly1305::clamp(poly_key)),
            0,
            nh_digests(words_of(nh_key), msg),
        ),
{
    poly1305::lemma_clamp_wf(poly_key);
    lemma_nh_digests_len(words_of(nh_key), msg);
    poly1305::lemma_poly_blocks_congruent(
        poly1305::clamp(poly_key),
        poly1305::zero_state(),
        nh_digests(words_of(nh_key), msg),
    );
}

/// The digest stream is 32 bytes per 1024-byte block, the trailing
/// partial block included.
proof fn lemma_nh_digests_len(kw: Seq<u32>, msg: Seq<u8>)
    ensures
        nh_digests(kw, msg).len() % 16 == 0,
    decreases msg.len(),
{
    if msg.len() == 0 {
    } else if msg.len() > nh::NH_MESSAGE_BYTES {
        nh::lemma_nh_output_len(kw, msg.subrange(0, nh::NH_MESSAGE_BYTES as int));
        lemma_nh_digests_len(kw, msg.subrange(nh::NH_MESSAGE_BYTES as int, msg.len() as int));
    } else {
        nh::lemma_nh_output_len(kw, pad16(msg));
    }
}

/// A combined NH and accumulator key: 16 accumulator key bytes
/// followed by 4096 NH key bytes.
pub struct Hasher {
    key: Vec<u8>,
}

impl Hasher {
    /// The combined key bytes.
    pub closed spec fn key_bytes(self) -> Seq<u8> {
        self.key@
    }

    /// The key has its full fixed length.
    pub closed spec fn wf(self) -> bool {
        self.key@.len() == NHPOLY_KEY_BYTES
    }

    /// The digest `hash` returns, as a function of the key and the
    /// message.
    pub open spec fn digest(self, msg: Seq<u8>) -> Seq<u8> {
        combine(
            self.key_bytes().subrange(0, 16),
            self.key_bytes().subrange(16, NHPOLY_KEY_BYTES as int),
            msg,
        )
    }

    /// Computes the 16-byte combined digest of `msg`.
    #[verifier::rlimit(100)]
    pub fn hash(&self, msg: &[u8]) -> (out: Vec<u8>)
        requires
            self.wf(),
        ensures
            out@.len() == 16,
            out@ == self.digest(msg@),
    {
        let poly_key = copy_range(self.key.as_slice(), 0, 16);
        let nh_key = copy_range(self.key.as_slice(), 16, NHPOLY_KEY_BYTES);
        let st_nh = nh::new(nh_key.as_slice());
        let mut st_poly = poly1305::new(poly_key.as_slice());
        let ghost kw = words_of(nh_key@);
        let ghost pk = poly1305::clamp(poly_key@);
        let ghost dall = nh_digests(kw, msg@);
        let mut nh_out: Vec<u8> = Vec::new();
        let ghost mut folded: Seq<u8> = Seq::empty();
        let mut off: usize = 0;
        proof {
            assert(msg@.subrange(0, msg@.len() as int) =~= msg@);
            assert(folded + nh_out@ + dall =~= dall);
        }
        while msg.len() - off > nh::NH_MESSAGE_BYTES
            invariant
                self.wf(),
                st_nh.wf(),
                st_nh.key_words() == kw,
                st_poly.wf(),
                st_poly.key() == pk,
                off % 1024 == 0,
                off <= msg@.len(),
                folded.len() % 16 == 0,
                st_poly.st() == poly1305::poly_blocks(pk, poly1305::zero_state(), folded),
                nh_out@.len() == 32 * ((off as int / 1024) % 16),
                folded + nh_out@ + nh_digests(kw, msg@.subrange(off as int, msg@.len() as int))
                    == dall,
            decreases msg@.len() - off,
        {
            let block = copy_range(msg, off, off + nh::NH_MESSAGE_BYTES);
            let ghost suffix = msg@.subrange(off as int, msg@.len() as int);
            let ghost rest = msg@.subrange(off as int + 1024, msg@.len() as int);
            let ghost f0 = folded;
            let ghost b0 = nh_out@;
            st_nh.hash(&mut nh_out, block.as_slice());
            proof {
                assert(suffix.subrange(0, nh::NH_MESSAGE_BYTES as int) =~= block@);
                assert(suffix.subrange(nh::NH_MESSAGE_BYTES as int, suffix.len() as int) =~= rest);
                assert(nh_digests(kw, suffix) == nh::nh_output(kw, block@) + nh_digests(kw, rest));
                assert(f0 + (b0 + nh::nh_output(kw, block@)) + nh_digests(kw, rest) =~= f0 + b0 + (
                nh::nh_output(kw, block@) + nh_digests(kw, rest)));
                assert(f0 + nh_out@ + nh_digests(kw, rest) == dall);
            }
            if nh_out.len() == nh::NH_OUTPUT_BYTES * NHPOLY_HASHES_PER_POLY {
                st_poly.update(nh_out.as_slice());
                proof {
                    poly1305::lemma_poly_blocks_append(
                        pk,
                        poly1305::zero_state(),
                        folded,
                        nh_out@,
                    );
                    folded = folded + nh_out@;
                }
                nh_out.truncate(0);
                proof {
                    assert(nh_out@ =~= Seq::<u8>::empty());
                    assert(folded + nh_out@ =~= folded);
                    assert(folded + nh_out@ + nh_digests(kw, rest) =~= f0 + (b0 + nh::nh_output(
                        kw,
                        block@,
                    )) + nh_digests(kw, rest));
                }
            }
            proof {
                let kix = off as int / 1024;
                assert((off as int + 1024) / 1024 == kix + 1);
                if kix % 16 < 15 {
                    assert((kix + 1) % 16 == kix % 16 + 1);
                } else {
                    assert((kix + 1) % 16 == 0);
                }
            }
            off = off + nh::NH_MESSAGE_BYTES;
        }
        proof {
            assert(nh_out@.len() % 16 == 0);
        }
        if msg.len() - off > 0 {
            let mut padded = copy_range(msg, off, msg.len());
            let ghost suffix = msg@.subrange(off as int, msg@.len() as int);
            let ghost b1 = nh_out@;
            while padded.len() % 16 != 0
                invariant
                    suffix.len() <= padded@.len(),
                    padded@.len() <= suffix.len() + ((16 - suffix.len() % 16) % 16),
                    padded@.subrange(0, suffix.len() as int) == suffix,
                    forall|i: int| suffix.len() <= i < padded@.len() ==> padded@[i] == 0u8,
                decreases suffix.len() + 16 - padded@.len(),
            {
                proof {
                    assert((suffix.len() + ((16 - suffix.len() % 16) % 16)) % 16 == 0);
                }
                padded.push(0);
                proof {
                    assert(padded@.subrange(0, suffix.len() as int) =~= suffix);
                }
            }
            proof {
                assert(padded@ =~= pad16(suffix));
            }
            st_nh.hash(&mut nh_out, padded.as_slice());
            proof {
                assert(b1.len() % 16 == 0);
                assert(nh_out@.len() % 16 == 0);
                assert(nh_digests(kw, suffix) == nh::nh_output(kw, padded@));
                assert(folded + (b1 + nh::nh_output(kw, padded@)) =~= folded + b1 + nh::nh_output(
                    kw,
                    padded@,
                ));
                assert(folded + nh_out@ == dall);
            }
        } else {
            proof {
                assert(msg@.subrange(off as int, msg@.len() as int).len() == 0);
                assert(nh_digests(kw, msg@.subrange(off as int, msg@.len() as int))
                    =~= Seq::<u8>::empty());
                assert(folded + nh_out@ + Seq::<u8>::empty() =~= folded + nh_out@);
                assert(folded + nh_out@ == dall);
            }
        }
        if nh_out.len() > 0 {
            proof {
                assert(nh_out@.len() % 16 == 0);
            }
            st_poly.update(nh_out.as_slice());
            proof {
                poly1305::lemma_poly_blocks_append(pk, poly1305::zero_state(), folded, nh_out@);
                folded = folded + nh_out@;
                assert(folded == dall);
            }
        } else {
            proof {
                assert(nh_out@ =~= Seq::<u8>::empty());
                assert(folded + nh_out@ =~= folded);
                assert(folded == dall);
            }
        }
        st_poly.finalize_noadd()
    }
}

/// Builds a combined hasher from `NHPOLY_KEY_BYTES` key bytes.
pub fn new(key: &[u8]) -> (h: Hasher)
    requires
        key@.len() == NHPOLY_KEY_BYTES,
    ensures
        h.wf(),
        h.key_bytes() == key@,
{
    let mut owned: Vec<u8> = Vec::new();
    let mut i: usize = 0;
    while i < NHPOLY_KEY_BYTES
        invariant
            key@.len() == NHPOLY_KEY_BYTES,
            i <= NHPOLY_KEY_BYTES,
            owned@ == key@.subrange(0, i as int),
        decreases NHPOLY_KEY_BYTES - i,
    {
        owned.push(key[i]);
        i = i + 1;
        proof {
            assert(owned@ =~= key@.subrange(0, i as int));
        }
    }
    proof {
        assert(key@.subrange(0, NHPOLY_KEY_BYTES as int) =~= key@);
    }
    Hasher { key: owned }
}

} // verus!
