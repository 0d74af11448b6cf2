//! The public hashing facade: seed expansion, key handling, and the
//! outer keyed compression.
//!
//! A seed of at least `MIN_SEED_BYTES` bytes is expanded into 4144 key
//! bytes: 32 for the outer keyed sponge, 16 for the polynomial
//! accumulator, 4096 for the NH block hash.  Hashing a message folds
//! it through the inner layers and compresses the message length and
//! the 16-byte inner digest into `OUTPUT_BYTES` bytes.
//!
//! The personalization context is bound at both layers, as each takes
//! its own optional context: the seed expansion and the outer sponge.

use vstd::prelude::*;

use crate::codec::copy_range;
use crate::codec::le64_bytes;
use crate::codec::push_u64_le;
use crate::nhpoly1305;
use crate::xof;

verus! {

pub const KMAC_KEY_BYTES: usize = 32;

pub const KEY_BYTES: usize = KMAC_KEY_BYTES + nhpoly1305::NHPOLY_KEY_BYTES;

/// Hash output size, in bytes.
pub const OUTPUT_BYTES: usize = 32;

/// Recommended seed size, in bytes.
pub const SEED_BYTES: usize = 32;

/// Minimum seed size, in bytes.
pub const MIN_SEED_BYTES: usize = 16;

/// The bytes of an optional personalization context: its contents, or
/// empty when absent.
pub open spec fn ctx_view(p: Option<&[u8]>) -> Seq<u8> {
    match p {
        Some(s) => s@,
        None => Seq::empty(),
    }
}

/// The derived key bytes for a seed and a personalization context:
/// what the extendable-output function squeezes.
pub open spec fn key_of_seed(seed: Seq<u8>, context: Seq<u8>) -> Seq<u8> {
    xof::sthash_xof(context, seed, KEY_BYTES as nat)
}

/// The digest for derived key bytes `key`, hashing context `context`,
/// and message `msg`: the message length and the combined inner digest,
/// compressed by the keyed sponge under the first 32 key bytes.
pub open spec fn hash_spec(key: Seq<u8>, context: Seq<u8>, msg: Seq<u8>) -> Seq<u8> {
    xof::kmac_xof(
        key.subrange(0, KMAC_KEY_BYTES as int),
        context,
        le64_bytes(msg.len() as u64) + nhpoly1305::combine(
            key.subrange(KMAC_KEY_BYTES as int, KMAC_KEY_BYTES as int + 16),
            key.subrange(KMAC_KEY_BYTES as int + 16, KEY_BYTES as int),
            msg,
        ),
        OUTPUT_BYTES as nat,
    )
}

/// A large secret key, derived from a secret seed.
#[derive(Clone, Debug, PartialEq, Eq)]
pub struct Key(Vec<u8>);

impl Key {
    /// The derived key bytes.
    pub closed spec fn bytes(self) -> Seq<u8> {
        self.0@
    }

    /// The key has its full fixed length.
    pub closed spec fn wf(self) -> bool {
        self.0@.len() == KEY_BYTES
    }

    /// Creates a new key from a secret `seed`.
    ///
    /// This expands the `seed` into a large secret key.
    /// `personalization` is an optional context, that can be set to the
    /// application name.  The same `seed` used in different contexts
    /// will produce different keys, hence different hashes.
    pub fn from_seed(seed: &[u8], personalization: Option<&[u8]>) -> (k: Key)
        requires
            seed@.len() >= MIN_SEED_BYTES,
            ctx_view(personalization).len() * 8 <= usize::MAX,
        ensures
            k.wf(),
            k.bytes().len() == KEY_BYTES,
            k.bytes() == key_of_seed(seed@, ctx_view(personalization)),
    {
        let key_bytes = match personalization {
            Some(p) => xof::cshake_expand(p, seed, KEY_BYTES),
            None => {
                let empty: Vec<u8> = Vec::new();
                xof::cshake_expand(empty.as_slice(), seed, KEY_BYTES)
            },
        };
        Key(key_bytes)
    }
}

/// A `Hasher` can be reused to compute multiple hashes using the same
/// key.
#[derive(Clone)]
pub struct Hasher {
    key: Key,
    personalization: Vec<u8>,
}

impl Hasher {
    /// The derived key bytes this hasher uses.
    pub closed spec fn key_bytes(self) -> Seq<u8> {
        self.key.0@
    }

    /// The hashing context bound at construction.
    pub closed spec fn context(self) -> Seq<u8> {
        self.personalization@
    }

    /// The key has its full length and the context stays within the
    /// sponge's length encoding.
    pub closed spec fn wf(self) -> bool {
        self.key.0@.len() == KEY_BYTES && self.personalization@.len() * 8 <= usize::MAX
    }

    /// Creates a new `Hasher` object using `key`.
    ///
    /// `personalization` is an optional context that describes the
    /// purpose of the hashes this `Hasher` will compute.  The same key
    /// used with the same messages, but in different contexts, will
    /// produce different outputs.
    pub fn new(key: Key, personalization: Option<&[u8]>) -> (h: Hasher)
        requires
            key.wf(),
            ctx_view(personalization).len() * 8 <= usize::MAX,
        ensures
            h.wf(),
            h.key_bytes() == key.bytes(),
            h.context() == ctx_view(personalization),
    {
        let context: Vec<u8> = match personalization {
            Some(p) => {
                let c = copy_range(p, 0, p.len());
                proof {
                    assert(p@.subrange(0, p@.len() as int) =~= p@);
                }
                c
            },
            None => Vec::new(),
        };
        Hasher { key, personalization: context }
    }

    /// Returns an `OUTPUT_BYTES` hash of the message.
    pub fn hash(&self, msg: &[u8]) -> (r: Vec<u8>)
        requires
            self.wf(),
        ensures
            r@.len() == OUTPUT_BYTES,
            r@ == hash_spec(self.key_bytes(), self.context(), msg@),
    {
        let nhpoly_key = copy_range(self.key.0.as_slice(), KMAC_KEY_BYTES, KEY_BYTES);
        let st_nhpoly = nhpoly1305::new(nhpoly_key.as_slice());
        let poly = st_nhpoly.hash(msg);
        let mut body: Vec<u8> = Vec::new();
        push_u64_le(&mut body, msg.len() as u64);
        let mut i: usize = 0;
        while i < poly.len()
            invariant
                i <= poly@.len(),
                body@ == le64_bytes(msg@.len() as u64) + poly@.subrange(0, i as int),
            decreases poly@.len() - i,
        {
            body.push(poly[i]);
            i = i + 1;
            proof {
                assert(body@ =~= le64_bytes(msg@.len() as u64) + poly@.subrange(0, i as int));
            }
        }
        let kmac_key = copy_range(self.key.0.as_slice(), 0, KMAC_KEY_BYTES);
        let r = xof::kmac_digest(
            kmac_key.as_slice(),
            self.personalization.as_slice(),
            body.as_slice(),
            OUTPUT_BYTES,
        );
        proof {
            let kb = self.key_bytes();
            assert(poly@.subrange(0, poly@.len() as int) =~= poly@);
            assert(nhpoly_key@.subrange(0, 16) =~= kb.subrange(
                KMAC_KEY_BYTES as int,
                KMAC_KEY_BYTES as int + 16,
            ));
            assert(nhpoly_key@.subrange(16, nhpoly1305::NHPOLY_KEY_BYTES as int) =~= kb.subrange(
                KMAC_KEY_BYTES as int + 16,
                KEY_BYTES as int,
            ));
        }
        r
    }
}

/// Equal derived keys, contexts and messages give equal digests: the
/// whole pipeline, seed expansion included, is a pure function of its
/// inputs, so one `Hasher` hashing one message twice, or two `Hasher`
/// values built from the same seed and personalization hashing the
/// same message, return identical bytes.
pub proof fn lemma_hash_deterministic(
    seed1: Seq<u8>,
    seed2: Seq<u8>,
    kd_ctx1: Seq<u8>,
    kd_ctx2: Seq<u8>,
    ctx1: Seq<u8>,
    ctx2: Seq<u8>,
    msg1: Seq<u8>,
    msg2: Seq<u8>,
)
    requires
        seed1 == seed2,
        kd_ctx1 == kd_ctx2,
        ctx1 == ctx2,
        msg1 == msg2,
    ensures
        key_of_seed(seed1, kd_ctx1) == key_of_seed(seed2, kd_ctx2),
        hash_spec(key_of_seed(seed1, kd_ctx1), ctx1, msg1) == hash_spec(
            key_of_seed(seed2, kd_ctx2),
            ctx2,
            msg2,
        ),
{
}

} // verus!
