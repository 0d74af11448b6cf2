//! Trusted wrappers around the keyed sponge primitives.
//!
//! The sponge is the one outside collaborator of this library: a
//! customizable extendable-output function expands the seed into key
//! material, and a keyed message-authentication construction
//! compresses the inner digest into the final output.  Both results
//! are named, not stated: they depend on the wrapper arguments alone.

use vstd::prelude::*;

verus! {

/// The bytes the customizable extendable-output function squeezes
/// under this library's fixed domain label, as a function of the
/// customization string, the absorbed input, and the output length.
pub uninterp spec fn sthash_xof(context: Seq<u8>, input: Seq<u8>, out_len: nat) -> Seq<u8>;

/// The bytes the keyed message-authentication sponge squeezes, as a
/// function of its key, its customization string, the absorbed input,
/// and the output length.
pub uninterp spec fn kmac_xof(key: Seq<u8>, context: Seq<u8>, input: Seq<u8>, out_len: nat) -> Seq<
    u8,
>;

/// Relies on tiny_keccak's `CShake::v128`, keyed with the fixed name
/// `"sthash key"`: absorbing `input` and squeezing `out_len` bytes is
/// deterministic in `context`, `input` and `out_len`, and fills the
/// whole output buffer.  The length bounds keep the bit-length
/// prefixes the construction encodes from overflowing.
#[verifier::external_body]
pub(crate) fn cshake_expand(context: &[u8], input: &[u8], out_len: usize) -> (r: Vec<u8>)
    requires
        context@.len() * 8 <= usize::MAX,
        out_len * 8 <= usize::MAX,
    ensures
        r@.len() == out_len,
        r@ == sthash_xof(context@, input@, out_len as nat),
{
    let mut st = tiny_keccak::CShake::v128(b"sthash key", context);
    tiny_keccak::Hasher::update(&mut st, input);
    let mut out = vec![0u8; out_len];
    tiny_keccak::Hasher::finalize(st, &mut out);
    out
}

/// Relies on tiny_keccak's `Kmac::v128`: absorbing `input` and
/// squeezing `out_len` bytes is deterministic in `key`, `context`,
/// `input` and `out_len`, and fills the whole output buffer.  The
/// length bounds keep the bit-length prefixes the construction encodes
/// from overflowing.
#[verifier::external_body]
pub(crate) fn kmac_digest(key: &[u8], context: &[u8], input: &[u8], out_len: usize) -> (r: Vec<u8>)
    requires
        key@.len() * 8 <= usize::MAX,
        context@.len() * 8 <= usize::MAX,
        out_len * 8 <= usize::MAX,
    ensures
        r@.len() == out_len,
        r@ == kmac_xof(key@, context@, input@, out_len as nat),
{
    let mut st = tiny_keccak::Kmac::v128(key, context);
    tiny_keccak::Hasher::update(&mut st, input);
    let mut out = vec![0u8; out_len];
    tiny_keccak::Hasher::finalize(st, &mut out);
    out
}

} // verus!
