//! Field codec: conversion between 32-byte ciphertext blocks and the
//! confidential computation engine's field elements, and between a field
//! element and a 128-bit nonce.
//!
//! A field element is carried as its canonical little-endian byte image; its
//! mathematical value, the little-endian base-256 reading of those bytes, is
//! the element's view.

use vstd::arithmetic::div_mod::{
    lemma_div_multiples_vanish_fancy, lemma_mod_multiples_vanish, lemma_small_mod,
};
use vstd::prelude::*;

verus! {

/// 256 raised to the power `n`: the weight of byte position `n` in a
/// little-endian base-256 expansion.
pub open spec fn pow256(n: nat) -> nat
    decreases n,
{
    if n == 0 {
        1
    } else {
        256 * pow256((n - 1) as nat)
    }
}

/// The value of a byte sequence read as a little-endian base-256 expansion:
/// the sum of `s[i] * 256^i` over all positions `i`.
pub open spec fn le_val(s: Seq<u8>) -> nat
    decreases s.len(),
{
    if s.len() == 0 {
        0
    } else {
        (s[0] + 256 * le_val(s.subrange(1, s.len() as int))) as nat
    }
}

/// The `n` low-order bytes of `v`, in little-endian order.
pub open spec fn le_bytes(v: nat, n: nat) -> Seq<u8>
    decreases n,
{
    if n == 0 {
        Seq::empty()
    } else {
        seq![(v % 256) as u8] + le_bytes(v / 256, (n - 1) as nat)
    }
}

pub proof fn lemma_le_bytes_len(v: nat, n: nat)
    ensures
        le_bytes(v, n).len() == n,
    decreases n,
{
    if n > 0 {
        lemma_le_bytes_len(v / 256, (n - 1) as nat);
    }
}

pub proof fn lemma_pow256_pos(n: nat)
    ensures
        pow256(n) >= 1,
    decreases n,
{
    if n > 0 {
        lemma_pow256_pos((n - 1) as nat);
    }
}

pub proof fn lemma_pow256_increases(m: nat, n: nat)
    requires
        m <= n,
    ensures
        pow256(m) <= pow256(n),
    decreases n,
{
    if m < n {
        lemma_pow256_increases(m, (n - 1) as nat);
        lemma_pow256_pos((n - 1) as nat);
    }
}

pub proof fn lemma_pow256_16()
    ensures
        pow256(16) == 0x100000000000000000000000000000000,
{
    reveal_with_fuel(pow256, 17);
}

/// A little-endian reading of `n` bytes is below `256^n`.
pub proof fn lemma_le_val_bound(s: Seq<u8>)
    ensures
        le_val(s) < pow256(s.len()),
    decreases s.len(),
{
    if s.len() > 0 {
        lemma_le_val_bound(s.subrange(1, s.len() as int));
    }
}

/// Splitting a byte sequence splits its value: the second part is weighted by
/// 256 to the length of the first.
pub proof fn lemma_le_val_append(a: Seq<u8>, b: Seq<u8>)
    ensures
        le_val(a + b) == le_val(a) + pow256(a.len()) * le_val(b),
    decreases a.len(),
{
    if a.len() == 0 {
        assert(a + b =~= b);
    } else {
        let at = a.subrange(1, a.len() as int);
        lemma_le_val_append(at, b);
        assert((a + b).subrange(1, (a + b).len() as int) =~= at + b);
        assert(le_val(a + b) == a[0] + 256 * le_val(at + b));
        assert(le_val(a) == a[0] + 256 * le_val(at));
        assert(pow256(a.len()) == 256 * pow256(at.len()));
        assert(256 * (le_val(at) + pow256(at.len()) * le_val(b)) == 256 * le_val(at) + (256
            * pow256(at.len())) * le_val(b)) by (nonlinear_arith);
        assert((256 * pow256(at.len())) * le_val(b) == pow256(a.len()) * le_val(b));
    }
}

/// Encoding the value of a byte sequence over its own length gives the
/// sequence back: `le_bytes` inverts `le_val`.
pub proof fn lemma_le_bytes_of_le_val(s: Seq<u8>)
    ensures
        le_bytes(le_val(s), s.len()) == s,
    decreases s.len(),
{
    if s.len() > 0 {
        let rest = s.subrange(1, s.len() as int);
        let v = le_val(s) as int;
        lemma_le_bytes_of_le_val(rest);
        lemma_mod_multiples_vanish(le_val(rest) as int, s[0] as int, 256);
        lemma_small_mod(s[0] as nat, 256);
        lemma_div_multiples_vanish_fancy(le_val(rest) as int, s[0] as int, 256);
        assert(256 * (le_val(rest) as int) + s[0] as int == v);
        assert(v % 256 == s[0] as int);
        assert(v / 256 == le_val(rest) as int);
        assert(le_bytes(le_val(s), s.len()) =~= s);
    }
}

/// The low `k` bytes of a sequence read as the value modulo `256^k`: the
/// high-order bytes never reach a truncated reading.
pub proof fn lemma_le_val_take(s: Seq<u8>, k: int)
    requires
        0 <= k <= s.len(),
    ensures
        le_val(s.take(k)) == le_val(s) % pow256(k as nat),
{
    let lo = s.take(k);
    let hi = s.skip(k);
    assert(s =~= lo + hi);
    lemma_le_val_append(lo, hi);
    lemma_le_val_bound(lo);
    lemma_pow256_pos(k as nat);
    lemma_mod_multiples_vanish(le_val(hi) as int, le_val(lo) as int, pow256(k as nat) as int);
    lemma_small_mod(le_val(lo), pow256(k as nat));
    assert(pow256(k as nat) * le_val(hi) + le_val(lo) == le_val(s));
}

/// A field element of the confidential computation engine, held as its
/// canonical 32-byte little-endian image. The view is its mathematical value.
#[derive(Debug, PartialEq, Eq)]
pub struct FieldElement {
    bytes: Vec<u8>,
}

impl View for FieldElement {
    type V = nat;

    closed spec fn view(&self) -> nat {
        le_val(self.bytes@)
    }
}

impl FieldElement {
    /// Well-formed: the image is exactly 32 bytes wide.
    pub closed spec fn wf(self) -> bool {
        self.bytes@.len() == 32
    }
}

/// Interprets a 32-byte block as a little-endian base-256 expansion,
/// producing the field element whose value is the sum of `block[i] * 256^i`.
pub fn bytes_to_field(block: &Vec<u8>) -> (f: FieldElement)
    requires
        block@.len() == 32,
    ensures
        f.wf(),
        f@ == le_val(block@),
{
    let mut bytes: Vec<u8> = Vec::new();
    let mut i: usize = 0;
    while i < 32
        invariant
            block@.len() == 32,
            i <= 32,
            bytes@ == block@.take(i as int),
        decreases 32 - i,
    {
        bytes.push(block[i]);
        i = i + 1;
        assert(bytes@ =~= block@.take(i as int));
    }
    assert(block@.take(32) =~= block@);
    FieldElement { bytes }
}

/// The inverse direction: the exact 32-byte little-endian image of a field
/// element, the block whose little-endian reading is the element's value.
pub fn field_to_bytes_32(f: &FieldElement) -> (r: Vec<u8>)
    requires
        f.wf(),
    ensures
        r@.len() == 32,
        le_val(r@) == f@,
        r@ == le_bytes(f@, 32),
{
    let mut bytes: Vec<u8> = Vec::new();
    let mut i: usize = 0;
    while i < 32
        invariant
            f.bytes@.len() == 32,
            i <= 32,
            bytes@ == f.bytes@.take(i as int),
        decreases 32 - i,
    {
        bytes.push(f.bytes[i]);
        i = i + 1;
        assert(bytes@ =~= f.bytes@.take(i as int));
    }
    assert(bytes@ =~= f.bytes@);
    proof {
        lemma_le_bytes_of_le_val(f.bytes@);
    }
    bytes
}

/// Round-trip law: a 32-byte block, read as a field element and written back
/// out as 32 bytes, is returned unchanged.
pub proof fn lemma_block_round_trip(b: Seq<u8>)
    requires
        b.len() == 32,
    ensures
        le_bytes(le_val(b), 32) == b,
{
    lemma_le_bytes_of_le_val(b);
}

/// Nonce truncation law: the 128-bit nonce drawn from a field element is the
/// little-endian reading of its low 16 bytes alone, so two elements whose
/// images agree on those bytes yield one nonce, whatever their high-order
/// bytes hold.
pub proof fn lemma_nonce_ignores_high_bytes(a: Seq<u8>, b: Seq<u8>)
    requires
        a.len() == 32,
        b.len() == 32,
        a.take(16) == b.take(16),
    ensures
        le_val(a) % pow256(16) == le_val(b) % pow256(16),
{
    lemma_le_val_take(a, 16);
    lemma_le_val_take(b, 16);
}

/// Truncates a field element to a 128-bit nonce: the low 16 bytes of its
/// little-endian image, so the value modulo `2^128`, whatever the high-order
/// bytes hold.
pub fn field_to_bytes_128(f: &FieldElement) -> (r: u128)
    requires
        f.wf(),
    ensures
        r == f@ % pow256(16),
{
    let mut acc: u128 = 0;
    let mut i: usize = 0;
    while i < 16
        invariant
            f.bytes@.len() == 32,
            i <= 16,
            acc == le_val(f.bytes@.subrange(16 - i, 16)),
            acc < pow256(i as nat),
        decreases 16 - i,
    {
        let b = f.bytes[15 - i];
        proof {
            assert(f.bytes@.subrange(15 - i, 16).subrange(1, (i + 1) as int) =~= f.bytes@.subrange(
                16 - i,
                16,
            ));
            assert(pow256((i + 1) as nat) == 256 * pow256(i as nat));
            lemma_pow256_increases((i + 1) as nat, 16);
            lemma_pow256_16();
        }
        acc = acc * 256 + (b as u128);
        i = i + 1;
    }
    proof {
        assert(f.bytes@.subrange(0, 16) =~= f.bytes@.take(16));
        lemma_le_val_take(f.bytes@, 16);
    }
    acc
}

} // verus!
