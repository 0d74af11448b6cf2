//! The polynomial accumulator over the field of order `2^130 - 5`.
//!
//! The accumulator is kept in three limbs of 44, 44 and 42 bits.  Every
//! 16-byte chunk is decomposed into such limbs, a marker bit `2^128` is
//! set above its top limb, the chunk is added to the accumulator, and
//! the sum is multiplied by the clamped key, reducing products of
//! `2^130` back to `5` as the field equation allows.
//!
//! The finalization deliberately omits the secret-pad addition of a
//! full Poly1305 MAC: this layer is a universal hash feeding a separate
//! keyed compression, not a standalone MAC.

use vstd::prelude::*;

use crate::codec::le64;
use crate::codec::le64_bytes;
use crate::codec::read_u64_le;

verus! {

pub const POLY_KEY_BYTES: usize = 16;

/// The clamped multiplier, in limbs of at most 44, 44 and 40 bits.
#[derive(Clone, Copy)]
pub struct Key {
    pub r0: u64,
    pub r1: u64,
    pub r2: u64,
}

/// The running accumulator, in limbs of 44, 44 and 42 bits.
#[derive(Clone, Copy)]
pub struct State {
    pub h0: u64,
    pub h1: u64,
    pub h2: u64,
}

/// The multiplier limbs respect the clamping masks.
pub open spec fn key_wf(k: Key) -> bool {
    k.r0 <= 0xffc0fffffff && k.r1 <= 0xfffffc0ffff && k.r2 <= 0xffffffc0f
}

/// The accumulator limbs stay within their carry headroom.
pub open spec fn st_wf(st: State) -> bool {
    st.h0 < 0x100000000000 && st.h1 < 0x100000000100 && st.h2 < 0x40000000000
}

/// The accumulator before any chunk is absorbed.
pub open spec fn zero_state() -> State {
    State { h0: 0u64, h1: 0u64, h2: 0u64 }
}

/// The key limbs read back as one integer.
pub open spec fn key_val(k: Key) -> int {
    k.r0 + k.r1 * 0x100000000000int + k.r2 * 0x10000000000000000000000int
}

/// The accumulator limbs read back as one integer.
pub open spec fn limb_val(st: State) -> int {
    st.h0 + st.h1 * 0x100000000000int + st.h2 * 0x10000000000000000000000int
}

/// The field prime `2^130 - 5`.
pub open spec fn p1305() -> int {
    0x3fffffffffffffffffffffffffffffffbint
}

/// The clamped key derived from 16 key bytes: two little-endian 64-bit
/// words, masked into three limbs.
pub open spec fn clamp(s: Seq<u8>) -> Key
    recommends
        s.len() == 16,
{
    let t0 = le64(s.subrange(0, 8)) as u64;
    let t1 = le64(s.subrange(8, 16)) as u64;
    Key {
        r0: t0 & 0xffc0fffffff,
        r1: ((t0 >> 44) | (t1 << 20)) & 0xfffffc0ffff,
        r2: (t1 >> 24) & 0xffffffc0f,
    }
}

/// One accumulate-and-multiply round on the two little-endian words of
/// a 16-byte chunk.
///
/// The chunk limbs carry the marker `2^40` on the top limb, so the
/// absorbed value is `t0 + t1 * 2^64 + 2^128`.  The schoolbook product
/// against the key folds the `2^132` column back through `* 20`, and
/// one carry sweep returns the limbs to their headroom.
#[verifier::opaque]
pub open spec fn poly_step_raw(k: Key, st: State, t0: u64, t1: u64) -> State {
    let m0 = t0 % 0x100000000000;
    let m1 = t0 / 0x100000000000 + (t1 % 0x1000000) * 0x100000;
    let m2 = t1 / 0x1000000 + 0x10000000000;
    let a0 = st.h0 + m0;
    let a1 = st.h1 + m1;
    let a2 = st.h2 + m2;
    let s1 = k.r1 * 20;
    let s2 = k.r2 * 20;
    let d0 = a0 * k.r0 + a1 * s2 + a2 * s1;
    let d1 = a0 * k.r1 + a1 * k.r0 + a2 * s2;
    let d2 = a0 * k.r2 + a1 * k.r1 + a2 * k.r0;
    let e0 = d0 % 0x100000000000;
    let d1b = d1 + d0 / 0x100000000000;
    let e1 = d1b % 0x100000000000;
    let d2b = d2 + d1b / 0x100000000000;
    let e2 = d2b % 0x40000000000;
    let f0 = e0 + (d2b / 0x40000000000) * 5;
    let g0 = f0 % 0x100000000000;
    let g1 = e1 + f0 / 0x100000000000;
    State { h0: g0 as u64, h1: g1 as u64, h2: e2 as u64 }
}

/// One round on a 16-byte chunk.
pub open spec fn poly_step(k: Key, st: State, chunk: Seq<u8>) -> State
    recommends
        chunk.len() == 16,
{
    poly_step_raw(
        k,
        st,
        le64(chunk.subrange(0, 8)) as u64,
        le64(chunk.subrange(8, 16)) as u64,
    )
}

/// The accumulator after absorbing `data`, 16 bytes at a time.
pub open spec fn poly_blocks(k: Key, st: State, data: Seq<u8>) -> State
    recommends
        data.len() % 16 == 0,
    decreases data.len(),
{
    if data.len() < 16 {
        st
    } else {
        poly_blocks(k, poly_step(k, st, data.subrange(0, 16)), data.subrange(16, data.len() as int))
    }
}

/// Absorbing a concatenation is absorbing each part in turn.
pub proof fn lemma_poly_blocks_append(k: Key, st: State, a: Seq<u8>, b: Seq<u8>)
    requires
        a.len() % 16 == 0,
    ensures
        poly_blocks(k, st, a + b) == poly_blocks(k, poly_blocks(k, st, a), b),
    decreases a.len(),
{
    if a.len() == 0 {
        assert(a + b =~= b);
    } else {
        assert((a + b).subrange(0, 16) =~= a.subrange(0, 16));
        assert((a + b).subrange(16, (a + b).len() as int) =~= a.subrange(16, a.len() as int) + b);
        lemma_poly_blocks_append(
            k,
            poly_step(k, st, a.subrange(0, 16)),
            a.subrange(16, a.len() as int),
            b,
        );
    }
}

/// Clamping produces limbs within the mask bounds, whatever the key
/// bytes.
pub proof fn lemma_clamp_wf(s: Seq<u8>)
    ensures
        key_wf(clamp(s)),
{
    let t0 = le64(s.subrange(0, 8)) as u64;
    let t1 = le64(s.subrange(8, 16)) as u64;
    assert(t0 & 0xffc0fffffff <= 0xffc0fffffff) by (bit_vector);
    assert(((t0 >> 44) | (t1 << 20)) & 0xfffffc0ffff <= 0xfffffc0ffff) by (bit_vector);
    assert((t1 >> 24) & 0xffffffc0f <= 0xffffffc0f) by (bit_vector);
}

/// The reduced polynomial value: starting from `h`, the value of each
/// 16-byte chunk plus the `2^128` marker is added, and the sum is
/// multiplied by `r`, modulo the field prime.
pub open spec fn poly_eval(r: int, h: int, data: Seq<u8>) -> int
    recommends
        data.len() % 16 == 0,
    decreases data.len(),
{
    if data.len() < 16 {
        h % p1305()
    } else {
        poly_eval(
            r,
            ((h + crate::codec::le128(data.subrange(0, 16))
                + 0x100000000000000000000000000000000int) * r) % p1305(),
            data.subrange(16, data.len() as int),
        )
    }
}

/// The polynomial value depends on the accumulator argument only
/// through its residue.
proof fn lemma_poly_eval_mod(r: int, h1: int, h2: int, data: Seq<u8>)
    requires
        h1 % p1305() == h2 % p1305(),
    ensures
        poly_eval(r, h1, data) == poly_eval(r, h2, data),
    decreases data.len(),
{
    let p = p1305();
    if data.len() < 16 {
    } else {
        let m = crate::codec::le128(data.subrange(0, 16))
            + 0x100000000000000000000000000000000int;
        vstd::arithmetic::div_mod::lemma_add_mod_noop(h1, m, p);
        vstd::arithmetic::div_mod::lemma_add_mod_noop(h2, m, p);
        assert((h1 + m) % p == (h2 + m) % p);
        vstd::arithmetic::div_mod::lemma_mul_mod_noop_left(h1 + m, r, p);
        vstd::arithmetic::div_mod::lemma_mul_mod_noop_left(h2 + m, r, p);
        assert(((h1 + m) * r) % p == ((h2 + m) * r) % p);
    }
}

/// The limb algorithm evaluates the polynomial: after absorbing
/// `data`, the accumulator's residue is the polynomial value of `data`
/// at the clamped key.
pub proof fn lemma_poly_blocks_congruent(k: Key, st: State, data: Seq<u8>)
    requires
        key_wf(k),
        st_wf(st),
        data.len() % 16 == 0,
    ensures
        st_wf(poly_blocks(k, st, data)),
        limb_val(poly_blocks(k, st, data)) % p1305() == poly_eval(key_val(k), limb_val(st), data),
    decreases data.len(),
{
    let p = p1305();
    let r = key_val(k);
    if data.len() < 16 {
    } else {
        let chunk = data.subrange(0, 16);
        let rest = data.subrange(16, data.len() as int);
        let t0v = le64(chunk.subrange(0, 8));
        let t1v = le64(chunk.subrange(8, 16));
        let t0 = t0v as u64;
        let t1 = t1v as u64;
        assert(t0 == t0v && t1 == t1v);
        lemma_poly_step_congruent(k, st, t0, t1);
        let st2 = poly_step(k, st, chunk);
        assert(crate::codec::le128(chunk) == t0 + t1 * 0x10000000000000000int);
        let hnext = ((limb_val(st) + crate::codec::le128(chunk)
            + 0x100000000000000000000000000000000int) * r) % p;
        vstd::arithmetic::div_mod::lemma_mod_twice(
            (limb_val(st) + crate::codec::le128(chunk)
                + 0x100000000000000000000000000000000int) * r,
            p,
        );
        assert(limb_val(st2) % p == hnext % p);
        lemma_poly_blocks_congruent(k, st2, rest);
        lemma_poly_eval_mod(r, limb_val(st2), hnext, rest);
    }
}

/// Builds the clamped multiplier from 16 key bytes.
impl Key {
    pub fn new(key: &[u8]) -> (k: Key)
        requires
            key@.len() == 16,
        ensures
            k == clamp(key@),
            key_wf(k),
    {
        let t0 = read_u64_le(key, 0);
        let t1 = read_u64_le(key, 8);
        let r0 = t0 & 0xffc0fffffff;
        let r1 = ((t0 >> 44u64) | (t1 << 20u64)) & 0xfffffc0ffff;
        let r2 = (t1 >> 24u64) & 0xffffffc0f;
        proof {
            lemma_clamp_wf(key@);
        }
        Key { r0, r1, r2 }
    }
}

/// A keyed accumulator: clamped key and running limbs.
pub struct Hasher {
    key: Key,
    st: State,
}

impl Hasher {
    /// The clamped key this accumulator multiplies by.
    pub closed spec fn key(self) -> Key {
        self.key
    }

    /// The current accumulator limbs.
    pub closed spec fn st(self) -> State {
        self.st
    }

    /// Key and accumulator are within their structural bounds.
    pub closed spec fn wf(self) -> bool {
        key_wf(self.key) && st_wf(self.st)
    }
}

/// Starts an accumulator from 16 key bytes, with the accumulator at
/// zero.
pub fn new(key: &[u8]) -> (h: Hasher)
    requires
        key@.len() == 16,
    ensures
        h.wf(),
        h.key() == clamp(key@),
        h.st() == zero_state(),
{
    let k = Key::new(key);
    Hasher { key: k, st: State { h0: 0, h1: 0, h2: 0 } }
}

/// `x <= a` and `y <= b` bound the product `x * y`.
proof fn lemma_mul_le(x: int, y: int, a: int, b: int)
    by (nonlinear_arith)
    requires
        0 <= x <= a,
        0 <= y <= b,
    ensures
        x * y <= a * b,
{
}

/// One executable accumulate-and-multiply round.
#[verifier::rlimit(60)]
fn poly_step_exec(k: &Key, st: State, t0: u64, t1: u64) -> (r: State)
    requires
        key_wf(*k),
        st_wf(st),
    ensures
        r == poly_step_raw(*k, st, t0, t1),
        st_wf(r),
{
    proof {
        reveal(poly_step_raw);
    }
    let m0: u64 = t0 % 0x100000000000;
    let m1: u64 = t0 / 0x100000000000 + (t1 % 0x1000000) * 0x100000;
    let m2: u64 = t1 / 0x1000000 + 0x10000000000;
    let a0: u64 = st.h0 + m0;
    let a1: u64 = st.h1 + m1;
    let a2: u64 = st.h2 + m2;
    let s1: u64 = k.r1 * 20;
    let s2: u64 = k.r2 * 20;
    proof {
        lemma_mul_le(a0 as int, k.r0 as int, 0x200000000000, 0xffc0fffffff);
        lemma_mul_le(a1 as int, s2 as int, 0x200000100400, 0x13fffffb12c);
        lemma_mul_le(a2 as int, s1 as int, 0x60000000000, 0x13ffffb13ffec);
        lemma_mul_le(a0 as int, k.r1 as int, 0x200000000000, 0xfffffc0ffff);
        lemma_mul_le(a1 as int, k.r0 as int, 0x200000100400, 0xffc0fffffff);
        lemma_mul_le(a2 as int, s2 as int, 0x60000000000, 0x13fffffb12c);
        lemma_mul_le(a0 as int, k.r2 as int, 0x200000000000, 0xffffffc0f);
        lemma_mul_le(a1 as int, k.r1 as int, 0x200000100400, 0xfffffc0ffff);
        lemma_mul_le(a2 as int, k.r0 as int, 0x60000000000, 0xffc0fffffff);
    }
    let d0: u128 = (a0 as u128) * (k.r0 as u128) + (a1 as u128) * (s2 as u128) + (a2 as u128) * (
    s1 as u128);
    let d1: u128 = (a0 as u128) * (k.r1 as u128) + (a1 as u128) * (k.r0 as u128) + (a2 as u128) * (
    s2 as u128);
    let d2: u128 = (a0 as u128) * (k.r2 as u128) + (a1 as u128) * (k.r1 as u128) + (a2 as u128) * (
    k.r0 as u128);
    let e0: u64 = (d0 % 0x100000000000) as u64;
    let d1b: u128 = d1 + d0 / 0x100000000000;
    let e1: u64 = (d1b % 0x100000000000) as u64;
    let d2b: u128 = d2 + d1b / 0x100000000000;
    let e2: u64 = (d2b % 0x40000000000) as u64;
    let f0: u64 = e0 + (d2b / 0x40000000000) as u64 * 5;
    let g0: u64 = f0 % 0x100000000000;
    let g1: u64 = e1 + f0 / 0x100000000000;
    State { h0: g0, h1: g1, h2: e2 }
}

/// The multiplication columns of the schoolbook product against the
/// key, with the `2^132` and `2^176` columns folded down through
/// `2^132 = 4 * (2^130 - 5) + 20`: the folded columns differ from the
/// plain product by a multiple of the field prime.
#[verifier::rlimit(100)]
proof fn lemma_schoolbook(a0: int, a1: int, a2: int, r0: int, r1: int, r2: int)
    ensures
        (a0 * r0 + a1 * (20 * r2) + a2 * (20 * r1)) + (a0 * r1 + a1 * r0 + a2 * (20 * r2))
            * 0x100000000000 + (a0 * r2 + a1 * r1 + a2 * r0) * 0x10000000000000000000000 == (a0 + a1
            * 0x100000000000 + a2 * 0x10000000000000000000000) * (r0 + r1 * 0x100000000000 + r2
            * 0x10000000000000000000000) - 4 * 0x3fffffffffffffffffffffffffffffffbint * (a1 * r2
            + a2 * r1 + 0x100000000000 * (a2 * r2)),
{
    assert(a1 * (20 * r2) == 20 * (a1 * r2)) by (nonlinear_arith);
    assert(a2 * (20 * r1) == 20 * (a2 * r1)) by (nonlinear_arith);
    assert(a2 * (20 * r2) == 20 * (a2 * r2)) by (nonlinear_arith);
    assert((a0 + a1 * 0x100000000000 + a2 * 0x10000000000000000000000) * (r0 + r1 * 0x100000000000
        + r2 * 0x10000000000000000000000) == a0 * r0 + (a0 * r1 + a1 * r0) * 0x100000000000 + (a0
        * r2 + a1 * r1 + a2 * r0) * 0x10000000000000000000000 + (a1 * r2 + a2 * r1)
        * 0x1000000000000000000000000000000000int + (a2 * r2)
        * 0x100000000000000000000000000000000000000000000int) by (nonlinear_arith);
}

/// One round multiplies the accumulator, incremented by the chunk
/// value and the `2^128` marker, by the key, modulo the field prime.
///
/// This is the defining equation of the polynomial accumulator: the
/// limb steps, carries, and the times-five fold change the limb value
/// only by multiples of `2^130 - 5`.
pub proof fn lemma_poly_step_congruent(k: Key, st: State, t0: u64, t1: u64)
    requires
        key_wf(k),
        st_wf(st),
    ensures
        st_wf(poly_step_raw(k, st, t0, t1)),
        limb_val(poly_step_raw(k, st, t0, t1)) % p1305() == ((limb_val(st) + t0 + t1
            * 0x10000000000000000int + 0x100000000000000000000000000000000int) * key_val(k))
            % p1305(),
{
    reveal(poly_step_raw);
    let p = p1305();
    let m0 = t0 % 0x100000000000;
    let m1 = t0 / 0x100000000000 + (t1 % 0x1000000) * 0x100000;
    let m2 = t1 / 0x1000000 + 0x10000000000;
    assert(m0 + m1 * 0x100000000000 + m2 * 0x10000000000000000000000 == t0 + t1
        * 0x10000000000000000 + 0x100000000000000000000000000000000) by {
        assert(t0 == 0x100000000000 * (t0 / 0x100000000000) + t0 % 0x100000000000);
        assert(t1 == 0x1000000 * (t1 / 0x1000000) + t1 % 0x1000000);
    }
    let a0 = st.h0 + m0;
    let a1 = st.h1 + m1;
    let a2 = st.h2 + m2;
    let rv = key_val(k);
    let av = limb_val(st) + t0 + t1 * 0x10000000000000000 + 0x100000000000000000000000000000000;
    assert(a0 + a1 * 0x100000000000 + a2 * 0x10000000000000000000000 == av);
    let s1 = k.r1 * 20;
    let s2 = k.r2 * 20;
    let d0 = a0 * k.r0 + a1 * s2 + a2 * s1;
    let d1 = a0 * k.r1 + a1 * k.r0 + a2 * s2;
    let d2 = a0 * k.r2 + a1 * k.r1 + a2 * k.r0;
    assert(s1 == 20 * k.r1 && s2 == 20 * k.r2);
    lemma_schoolbook(a0, a1, a2, k.r0 as int, k.r1 as int, k.r2 as int);
    let folded = a1 * k.r2 + a2 * k.r1 + 0x100000000000 * (a2 * k.r2);
    assert(d0 + d1 * 0x100000000000 + d2 * 0x10000000000000000000000 == av * rv - 4 * p * folded);
    let e0 = d0 % 0x100000000000;
    let c0 = d0 / 0x100000000000;
    let d1b = d1 + c0;
    let e1 = d1b % 0x100000000000;
    let c1 = d1b / 0x100000000000;
    let d2b = d2 + c1;
    let e2 = d2b % 0x40000000000;
    let c2 = d2b / 0x40000000000;
    let f0 = e0 + c2 * 5;
    let g0 = f0 % 0x100000000000;
    let c3 = f0 / 0x100000000000;
    let g1 = e1 + c3;
    assert(d0 == 0x100000000000 * c0 + e0);
    assert(d1b == 0x100000000000 * c1 + e1);
    assert(d2b == 0x40000000000 * c2 + e2);
    assert(f0 == 0x100000000000 * c3 + g0);
    assert(g0 + g1 * 0x100000000000 + e2 * 0x10000000000000000000000 == av * rv - 4 * p * folded
        - c2 * p);
    // bounds, so that the limbs fit and the result is well formed
    lemma_mul_le(a0, k.r0 as int, 0x200000000000, 0xffc0fffffff);
    lemma_mul_le(a1, s2, 0x200000100400, 0x13fffffb12c);
    lemma_mul_le(a2, s1, 0x60000000000, 0x13ffffb13ffec);
    lemma_mul_le(a0, k.r1 as int, 0x200000000000, 0xfffffc0ffff);
    lemma_mul_le(a1, k.r0 as int, 0x200000100400, 0xffc0fffffff);
    lemma_mul_le(a2, s2, 0x60000000000, 0x13fffffb12c);
    lemma_mul_le(a0, k.r2 as int, 0x200000000000, 0xffffffc0f);
    lemma_mul_le(a1, k.r1 as int, 0x200000100400, 0xfffffc0ffff);
    lemma_mul_le(a2, k.r0 as int, 0x60000000000, 0xffc0fffffff);
    let r = poly_step_raw(k, st, t0, t1);
    assert(r.h0 == g0 && r.h1 == g1 && r.h2 == e2);
    assert(st_wf(r));
    assert(limb_val(r) == av * rv - p * (4 * folded + c2)) by (nonlinear_arith)
        requires
            limb_val(r) == av * rv - 4 * p * folded - c2 * p,
    ;
    vstd::arithmetic::div_mod::lemma_mod_multiples_vanish(-(4 * folded + c2), av * rv, p);
    assert((av * rv - p * (4 * folded + c2)) % p == (av * rv) % p) by (nonlinear_arith)
        requires
            (av * rv + (-(4 * folded + c2)) * p) % p == (av * rv) % p,
            p == p1305(),
    ;
}

/// Two carry rounds over the limbs.  The value of the limbs changes
/// only by multiples of the field prime: each sweep of the top limb
/// trades `2^130` for `5`.
#[verifier::opaque]
pub open spec fn poly_carry(st: State) -> State {
    let a1 = st.h1 % 0x100000000000;
    let a2 = st.h2 + st.h1 / 0x100000000000;
    let b2 = a2 % 0x40000000000;
    let b0 = st.h0 + (a2 / 0x40000000000) * 5;
    let c0 = b0 % 0x100000000000;
    let c1 = a1 + b0 / 0x100000000000;
    let d1 = c1 % 0x100000000000;
    let d2 = b2 + c1 / 0x100000000000;
    let e2 = d2 % 0x40000000000;
    let e0 = c0 + (d2 / 0x40000000000) * 5;
    let f0 = e0 % 0x100000000000;
    let f1 = d1 + e0 / 0x100000000000;
    State { h0: f0 as u64, h1: f1 as u64, h2: e2 as u64 }
}

/// The constant-time selection step on fully carried limbs.
///
/// The candidate `g = h + 5 - 2^130` is computed limb-wise.  When it
/// borrows, the accumulator is below the prime and passes through
/// unchanged; when it does not borrow, the candidate -- the
/// accumulator minus the prime -- is selected.  Either way the result
/// is the accumulator fully reduced modulo the prime.
#[verifier::opaque]
pub open spec fn poly_select(st: State) -> State {
    let g0 = (st.h0 + 5) % 0x100000000000;
    let gc1 = st.h1 + (st.h0 + 5) / 0x100000000000;
    let g1 = gc1 % 0x100000000000;
    let g2 = st.h2 + gc1 / 0x100000000000;
    if g2 < 0x40000000000 {
        st
    } else {
        State { h0: g0 as u64, h1: g1 as u64, h2: (g2 - 0x40000000000) as u64 }
    }
}

/// The 16 output bytes of an accumulator: carry, select, and serialize
/// the low 128 bits of the reduced value, little-endian.
#[verifier::opaque]
pub open spec fn poly_out(st: State) -> Seq<u8> {
    let f = poly_select(poly_carry(st));
    let lo = f.h0 | (f.h1 << 44);
    let hi = (f.h1 >> 20) | (f.h2 << 24);
    le64_bytes(lo) + le64_bytes(hi)
}

/// The carry rounds do not change the accumulator's residue, and they
/// return the limbs to canonical ranges.
pub proof fn lemma_poly_carry_congruent(st: State)
    requires
        st_wf(st),
    ensures
        limb_val(poly_carry(st)) % p1305() == limb_val(st) % p1305(),
        poly_carry(st).h0 < 0x100000000000,
        poly_carry(st).h1 < 0x100000000000,
        poly_carry(st).h2 < 0x40000000000,
{
    reveal(poly_carry);
    let p = p1305();
    let a1 = st.h1 % 0x100000000000;
    let a2 = st.h2 + st.h1 / 0x100000000000;
    let b2 = a2 % 0x40000000000;
    let b0 = st.h0 + (a2 / 0x40000000000) * 5;
    let c0 = b0 % 0x100000000000;
    let c1 = a1 + b0 / 0x100000000000;
    let d1 = c1 % 0x100000000000;
    let d2 = b2 + c1 / 0x100000000000;
    let e2 = d2 % 0x40000000000;
    let e0 = c0 + (d2 / 0x40000000000) * 5;
    let f0 = e0 % 0x100000000000;
    let f1 = d1 + e0 / 0x100000000000;
    assert(st.h1 == 0x100000000000 * (st.h1 / 0x100000000000) + a1);
    assert(a2 == 0x40000000000 * (a2 / 0x40000000000) + b2);
    assert(b0 == 0x100000000000 * (b0 / 0x100000000000) + c0);
    assert(c1 == 0x100000000000 * (c1 / 0x100000000000) + d1);
    assert(d2 == 0x40000000000 * (d2 / 0x40000000000) + e2);
    assert(e0 == 0x100000000000 * (e0 / 0x100000000000) + f0);
    let folds = a2 / 0x40000000000 + d2 / 0x40000000000;
    assert(f0 + f1 * 0x100000000000int + e2 * 0x10000000000000000000000int == limb_val(st) - p
        * folds);
    vstd::arithmetic::div_mod::lemma_mod_multiples_vanish(-folds, limb_val(st), p);
    assert((limb_val(st) - p * folds) % p == limb_val(st) % p) by (nonlinear_arith)
        requires
            (p * (-folds) + limb_val(st)) % p == limb_val(st) % p,
    ;
    // strictness of the middle limb: a carry out of it empties it first
    assert(c1 <= 0x100000000000);
    if c1 == 0x100000000000 {
        assert(d1 == 0);
        assert(f1 < 0x100000000000);
    } else {
        assert(c1 / 0x100000000000 == 0);
        assert(d2 == b2);
        assert(d2 / 0x40000000000 == 0);
        assert(e0 == c0);
        assert(e0 / 0x100000000000 == 0);
        assert(f1 == d1);
    }
}

/// Selecting on canonical limbs fully reduces the value modulo the
/// field prime.
proof fn lemma_poly_select_reduces(c: State)
    requires
        c.h0 < 0x100000000000,
        c.h1 < 0x100000000000,
        c.h2 < 0x40000000000,
    ensures
        limb_val(poly_select(c)) == limb_val(c) % p1305(),
        poly_select(c).h0 < 0x100000000000,
        poly_select(c).h1 < 0x100000000000,
        poly_select(c).h2 < 0x40000000000,
{
    reveal(poly_select);
    let p = p1305();
    let v = limb_val(c);
    let g0 = (c.h0 + 5) % 0x100000000000;
    let gc0 = (c.h0 + 5) / 0x100000000000;
    let gc1 = c.h1 + gc0;
    let g1 = gc1 % 0x100000000000;
    let c1 = gc1 / 0x100000000000;
    let g2 = c.h2 + c1;
    assert(c.h0 + 5 == 0x100000000000 * gc0 + g0);
    assert(gc1 == 0x100000000000 * c1 + g1);
    assert(v + 5 == g0 + g1 * 0x100000000000int + g2 * 0x10000000000000000000000int);
    if g2 < 0x40000000000 {
        assert(v < p);
        vstd::arithmetic::div_mod::lemma_small_mod(v as nat, p as nat);
    } else {
        assert(v >= p);
        assert(limb_val(poly_select(c)) == v - p);
        assert(v - p < p);
        vstd::arithmetic::div_mod::lemma_fundamental_div_mod_converse(v, p, 1, v - p);
    }
}

/// The serialized accumulator is the reduced value: 16 bytes whose
/// little-endian value is the limb value modulo the field prime,
/// truncated to its low 128 bits -- in `[0, 2^128)` however close the
/// raw accumulator comes to the prime.
pub proof fn lemma_poly_out_range(st: State)
    requires
        st_wf(st),
    ensures
        poly_out(st).len() == 16,
        crate::codec::le128(poly_out(st)) < 0x100000000000000000000000000000000int,
        crate::codec::le128(poly_out(st)) == (limb_val(st) % p1305())
            % 0x100000000000000000000000000000000int,
{
    reveal(poly_out);
    let p = p1305();
    lemma_poly_carry_congruent(st);
    let c = poly_carry(st);
    lemma_poly_select_reduces(c);
    let f = poly_select(c);
    let fh0 = f.h0;
    let fh1 = f.h1;
    let fh2 = f.h2;
    let lo = fh0 | (fh1 << 44);
    let hi = (fh1 >> 20) | (fh2 << 24);
    assert(lo == fh0 + (fh1 % 0x100000) * 0x100000000000) by (bit_vector)
        requires
            fh0 < 0x100000000000u64,
            lo == fh0 | (fh1 << 44),
    ;
    assert(hi == fh1 / 0x100000 + (fh2 % 0x10000000000) * 0x1000000) by (bit_vector)
        requires
            fh1 < 0x100000000000u64,
            hi == (fh1 >> 20) | (fh2 << 24),
    ;
    crate::codec::lemma_le64_bytes_roundtrip(lo);
    crate::codec::lemma_le64_bytes_roundtrip(hi);
    let out = poly_out(st);
    assert(out.subrange(0, 8) =~= le64_bytes(lo));
    assert(out.subrange(8, 16) =~= le64_bytes(hi));
    assert(fh1 == 0x100000 * (fh1 / 0x100000) + fh1 % 0x100000);
    assert(fh2 == 0x10000000000 * (fh2 / 0x10000000000) + fh2 % 0x10000000000);
    let low = crate::codec::le128(out) as int;
    assert(low == lo + hi * 0x10000000000000000int);
    assert(limb_val(f) == (fh2 as int / 0x10000000000) * 0x100000000000000000000000000000000int
        + low);
    vstd::arithmetic::div_mod::lemma_fundamental_div_mod_converse(
        limb_val(f),
        0x100000000000000000000000000000000int,
        fh2 as int / 0x10000000000,
        low,
    );
}

impl Hasher {
    /// Absorbs `msg`, one 16-byte chunk at a time, in order.
    #[verifier::rlimit(60)]
    pub fn update(&mut self, msg: &[u8])
        requires
            old(self).wf(),
            msg@.len() % 16 == 0,
        ensures
            final(self).wf(),
            final(self).key() == old(self).key(),
            final(self).st() == poly_blocks(old(self).key(), old(self).st(), msg@),
    {
        let ghost k = self.key;
        let ghost st0 = self.st;
        let mut st = self.st;
        let mut off: usize = 0;
        while off < msg.len()
            invariant
                key_wf(k),
                self.key == k,
                st_wf(st),
                msg@.len() % 16 == 0,
                off % 16 == 0,
                off <= msg@.len(),
                st == poly_blocks(k, st0, msg@.subrange(0, off as int)),
            decreases msg@.len() - off,
        {
            let ghost st_before = st;
            let t0 = read_u64_le(msg, off);
            let t1 = read_u64_le(msg, off + 8);
            let ghost prefix = msg@.subrange(0, off as int);
            let ghost chunk = msg@.subrange(off as int, off as int + 16);
            st = poly_step_exec(&self.key, st, t0, t1);
            proof {
                assert(chunk.subrange(0, 8) =~= msg@.subrange(off as int, off as int + 8));
                assert(chunk.subrange(8, 16) =~= msg@.subrange(off as int + 8, off as int + 16));
                let stp = poly_step(k, st_before, chunk);
                assert(st == stp);
                assert(chunk.subrange(16, chunk.len() as int) =~= Seq::<u8>::empty());
                assert(chunk.subrange(0, 16) =~= chunk);
                assert(poly_blocks(k, stp, chunk.subrange(16, chunk.len() as int)) == stp);
                assert(poly_blocks(k, st_before, chunk) == stp);
                assert(msg@.subrange(0, off as int + 16) =~= prefix + chunk);
                lemma_poly_blocks_append(k, st0, prefix, chunk);
                assert(st == poly_blocks(k, st0, msg@.subrange(0, off as int + 16)));
            }
            off = off + 16;
        }
        proof {
            assert(msg@.subrange(0, msg@.len() as int) =~= msg@);
        }
        self.st = st;
    }

    /// Reduces and serializes the accumulator, without the secret-pad
    /// addition of a full Poly1305 MAC: the 16 bytes encode the limb
    /// value modulo `2^130 - 5`, truncated to its low 128 bits.
    #[verifier::rlimit(60)]
    pub fn finalize_noadd(self) -> (r: Vec<u8>)
        requires
            self.wf(),
        ensures
            r@.len() == 16,
            r@ == poly_out(self.st()),
            crate::codec::le128(r@) == (limb_val(self.st()) % p1305())
                % 0x100000000000000000000000000000000int,
            crate::codec::le128(r@) < 0x100000000000000000000000000000000int,
    {
        proof {
            lemma_poly_out_range(self.st());
            reveal(poly_carry);
            reveal(poly_select);
            reveal(poly_out);
        }
        let mut h0: u64 = self.st.h0;
        let mut h1: u64 = self.st.h1;
        let mut h2: u64 = self.st.h2;
        let mut c: u64 = h1 / 0x100000000000;
        h1 = h1 % 0x100000000000;
        h2 = h2 + c;
        c = h2 / 0x40000000000;
        h2 = h2 % 0x40000000000;
        h0 = h0 + c * 5;
        c = h0 / 0x100000000000;
        h0 = h0 % 0x100000000000;
        h1 = h1 + c;
        c = h1 / 0x100000000000;
        h1 = h1 % 0x100000000000;
        h2 = h2 + c;
        c = h2 / 0x40000000000;
        h2 = h2 % 0x40000000000;
        h0 = h0 + c * 5;
        c = h0 / 0x100000000000;
        h0 = h0 % 0x100000000000;
        h1 = h1 + c;
        let ghost carried = poly_carry(self.st());
        proof {
            assert(h0 == carried.h0 && h1 == carried.h1 && h2 == carried.h2);
            assert(h0 < 0x100000000000 && h1 <= 0x100000000000 && h2 < 0x40000000000);
        }
        let ghost p0 = h0;
        let ghost p1 = h1;
        let ghost p2 = h2;
        let g0: u64 = h0 + 5;
        let c3: u64 = g0 / 0x100000000000;
        let g0m: u64 = g0 % 0x100000000000;
        let g1: u64 = h1 + c3;
        let c4: u64 = g1 / 0x100000000000;
        let g1m: u64 = g1 % 0x100000000000;
        let g2: u64 = (h2 + c4).wrapping_sub(0x40000000000);
        let mask: u64 = (g2 >> 63u64).wrapping_sub(1);
        proof {
            if h2 + c4 < 0x40000000000 {
                assert(g2 >= 0x8000000000000000);
                assert(g2 >> 63u64 == 1) by (bit_vector)
                    requires
                        g2 >= 0x8000000000000000u64,
                ;
                assert(mask == 0);
            } else {
                assert(g2 == p2 + c4 - 0x40000000000);
                assert(g2 < 0x8000000000000000);
                assert(g2 >> 63u64 == 0) by (bit_vector)
                    requires
                        g2 < 0x8000000000000000u64,
                ;
                assert(mask == 0xffffffffffffffff);
            }
        }
        let k0: u64 = g0m & mask;
        let k1: u64 = g1m & mask;
        let k2: u64 = g2 & mask;
        let maskn: u64 = !mask;
        h0 = (h0 & maskn) | k0;
        h1 = (h1 & maskn) | k1;
        h2 = (h2 & maskn) | k2;
        let ghost sel = poly_select(carried);
        proof {
            if mask == 0 {
                assert((p0 & !0u64) | (g0m & 0u64) == p0) by (bit_vector);
                assert((p1 & !0u64) | (g1m & 0u64) == p1) by (bit_vector);
                assert((p2 & !0u64) | (g2 & 0u64) == p2) by (bit_vector);
                assert(h0 == sel.h0 && h1 == sel.h1 && h2 == sel.h2);
            } else {
                assert((p0 & !0xffffffffffffffffu64) | (g0m & 0xffffffffffffffffu64) == g0m)
                    by (bit_vector);
                assert((p1 & !0xffffffffffffffffu64) | (g1m & 0xffffffffffffffffu64) == g1m)
                    by (bit_vector);
                assert((p2 & !0xffffffffffffffffu64) | (g2 & 0xffffffffffffffffu64) == g2)
                    by (bit_vector);
                assert(h0 == sel.h0 && h1 == sel.h1 && h2 == sel.h2);
            }
        }
        let lo: u64 = h0 | (h1 << 44u64);
        let hi: u64 = (h1 >> 20u64) | (h2 << 24u64);
        let mut out: Vec<u8> = Vec::new();
        crate::codec::push_u64_le(&mut out, lo);
        crate::codec::push_u64_le(&mut out, hi);
        proof {
            assert(out@ =~= poly_out(self.st()));
        }
        out
    }

    /// One-shot accumulator digest of `msg` under 16 key bytes.
    pub fn hash(key: &[u8], msg: &[u8]) -> (r: Vec<u8>)
        requires
            key@.len() == 16,
            msg@.len() % 16 == 0,
        ensures
            r@.len() == 16,
            r@ == poly_out(poly_blocks(clamp(key@), zero_state(), msg@)),
    {
        let mut h = new(key);
        h.update(msg);
        h.finalize_noadd()
    }
}

} // verus!
