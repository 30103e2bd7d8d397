//! The storage side: the vault-domain ciphertext, its copyable wrapper, the
//! per-user record, and the persisted wire layout — a 16-byte little-endian
//! nonce followed by six 32-byte ciphertext blocks, 208 bytes with no
//! padding.

use crate::codec::ConversionError;
use crate::field::{
    le_bytes, le_val, lemma_le_bytes_len, lemma_le_bytes_of_le_val, lemma_pow256_16,
    lemma_pow256_increases, pow256,
};
use vstd::arithmetic::div_mod::lemma_fundamental_div_mod;
use vstd::prelude::*;

verus! {

/// A vault-domain ciphertext: the resealed record the engine hands back — a
/// 128-bit nonce and exactly six 32-byte ciphertext blocks, one per profile
/// field, in field order.
#[derive(Debug, PartialEq, Eq)]
pub struct VaultCiphertext {
    pub nonce: u128,
    pub ciphertexts: Vec<Vec<u8>>,
}

impl VaultCiphertext {
    /// Well-formed: exactly six blocks, each exactly 32 bytes wide.
    pub open spec fn wf(self) -> bool {
        &&& self.ciphertexts@.len() == 6
        &&& forall|i: int| 0 <= i < 6 ==> (#[trigger] self.ciphertexts@[i])@.len() == 32
    }

    /// The abstract content: the nonce and the byte image of each block.
    pub open spec fn model(self) -> (nat, Seq<Seq<u8>>) {
        (self.nonce as nat, self.ciphertexts@.map_values(|b: Vec<u8>| b@))
    }
}

/// The persisted wire layout of a vault ciphertext: the nonce as 16
/// little-endian bytes, then the six blocks in order, 208 bytes in all.
pub open spec fn spec_wire(v: VaultCiphertext) -> Seq<u8> {
    le_bytes(v.nonce as nat, 16) + v.ciphertexts@[0]@ + v.ciphertexts@[1]@ + v.ciphertexts@[2]@
        + v.ciphertexts@[3]@ + v.ciphertexts@[4]@ + v.ciphertexts@[5]@
}

/// The wire layout determines the record: two well-formed vault ciphertexts
/// with one wire image are one value, so the 208-byte layout round-trips
/// byte for byte.
pub proof fn lemma_wire_injective(a: VaultCiphertext, b: VaultCiphertext)
    requires
        a.wf(),
        b.wf(),
        spec_wire(a) == spec_wire(b),
    ensures
        a.model() == b.model(),
{
    lemma_le_bytes_len(a.nonce as nat, 16);
    lemma_le_bytes_len(b.nonce as nat, 16);
    let wa = spec_wire(a);
    assert(a.ciphertexts@[0]@ =~= wa.subrange(16, 48));
    assert(b.ciphertexts@[0]@ =~= wa.subrange(16, 48));
    assert(a.ciphertexts@[1]@ =~= wa.subrange(48, 80));
    assert(b.ciphertexts@[1]@ =~= wa.subrange(48, 80));
    assert(a.ciphertexts@[2]@ =~= wa.subrange(80, 112));
    assert(b.ciphertexts@[2]@ =~= wa.subrange(80, 112));
    assert(a.ciphertexts@[3]@ =~= wa.subrange(112, 144));
    assert(b.ciphertexts@[3]@ =~= wa.subrange(112, 144));
    assert(a.ciphertexts@[4]@ =~= wa.subrange(144, 176));
    assert(b.ciphertexts@[4]@ =~= wa.subrange(144, 176));
    assert(a.ciphertexts@[5]@ =~= wa.subrange(176, 208));
    assert(b.ciphertexts@[5]@ =~= wa.subrange(176, 208));
    assert(le_bytes(a.nonce as nat, 16) =~= wa.subrange(0, 16));
    assert(le_bytes(b.nonce as nat, 16) =~= wa.subrange(0, 16));
    lemma_nonce_bytes_injective(a.nonce, b.nonce);
    assert(a.model().1 =~= b.model().1);
}

proof fn lemma_nonce_bytes_injective(m: u128, n: u128)
    requires
        le_bytes(m as nat, 16) == le_bytes(n as nat, 16),
    ensures
        m == n,
{
    let s = le_bytes(m as nat, 16);
    lemma_le_bytes_len(m as nat, 16);
    lemma_u128_le_bytes_val(m);
    lemma_u128_le_bytes_val(n);
}

/// A `u128` is exactly the little-endian reading of its 16 wire bytes.
pub proof fn lemma_u128_le_bytes_val(n: u128)
    ensures
        le_val(le_bytes(n as nat, 16)) == n,
{
    lemma_pow256_16();
    lemma_le_bytes_round(n as nat, 16);
}

/// Reading back `n` little-endian bytes of a value below `256^n` gives the
/// value.
proof fn lemma_le_bytes_round(v: nat, n: nat)
    requires
        v < pow256(n),
    ensures
        le_val(le_bytes(v, n)) == v,
    decreases n,
{
    if n == 0 {
    } else {
        lemma_le_bytes_round(v / 256, (n - 1) as nat);
        assert(v / 256 < pow256((n - 1) as nat)) by {
            assert(v < 256 * pow256((n - 1) as nat));
        }
        let s = le_bytes(v, n);
        assert(s.subrange(1, s.len() as int) =~= le_bytes(v / 256, (n - 1) as nat)) by {
            lemma_le_bytes_len(v / 256, (n - 1) as nat);
        }
        lemma_fundamental_div_mod(v as int, 256);
    }
}

impl VaultCiphertext {
    /// Serializes to the persisted 208-byte layout: 16-byte little-endian
    /// nonce, then the six 32-byte blocks, in order, with no padding.
    pub fn to_bytes(&self) -> (r: Vec<u8>)
        requires
            self.wf(),
        ensures
            r@.len() == 208,
            r@ == spec_wire(*self),
    {
        let mut out: Vec<u8> = Vec::new();
        push_u128_le(&mut out, self.nonce);
        assert(out@ =~= wire_prefix(*self, 0));
        let mut j: usize = 0;
        while j < 6
            invariant
                self.wf(),
                j <= 6,
                out@ == wire_prefix(*self, j as int),
            decreases 6 - j,
        {
            append_block(&mut out, &self.ciphertexts[j]);
            j = j + 1;
        }
        proof {
            lemma_le_bytes_len(self.nonce as nat, 16);
            reveal_with_fuel(wire_prefix, 8);
            assert(out@ =~= spec_wire(*self));
        }
        out
    }

    /// Parses the persisted 208-byte layout back into a vault ciphertext;
    /// a record of any other length is malformed. A successful parse is
    /// exact: the result's wire image is the input.
    pub fn from_bytes(bytes: &Vec<u8>) -> (r: Result<VaultCiphertext, ConversionError>)
        ensures
            bytes@.len() == 208 ==> (r matches Ok(v) && v.wf() && spec_wire(v) == bytes@),
            bytes@.len() != 208 ==> r == Err::<VaultCiphertext, ConversionError>(
                ConversionError::MalformedInput,
            ),
    {
        if bytes.len() != 208 {
            return Err(ConversionError::MalformedInput);
        }
        let nonce = read_u128_le(bytes, 0);
        let mut ciphertexts: Vec<Vec<u8>> = Vec::new();
        let mut j: usize = 0;
        while j < 6
            invariant
                bytes@.len() == 208,
                j <= 6,
                ciphertexts@.len() == j,
                forall|i: int|
                    0 <= i < j ==> (#[trigger] ciphertexts@[i])@ == bytes@.subrange(
                        16 + 32 * i,
                        48 + 32 * i,
                    ),
            decreases 6 - j,
        {
            let block = read_block(bytes, 16 + 32 * j);
            ciphertexts.push(block);
            j = j + 1;
        }
        let v = VaultCiphertext { nonce, ciphertexts };
        proof {
            assert(bytes@.subrange(0, 16) =~= bytes@.take(16));
            lemma_le_bytes_of_le_val(bytes@.take(16));
            lemma_le_bytes_len(v.nonce as nat, 16);
            assert(spec_wire(v) =~= bytes@);
        }
        Ok(v)
    }
}

/// The wire image of the nonce and the first `j` blocks.
spec fn wire_prefix(v: VaultCiphertext, j: int) -> Seq<u8>
    decreases j,
{
    if j <= 0 {
        le_bytes(v.nonce as nat, 16)
    } else {
        wire_prefix(v, j - 1) + v.ciphertexts@[j - 1]@
    }
}

/// Appends the nonce as its 16 low-order bytes, little-endian.
fn push_u128_le(out: &mut Vec<u8>, n: u128)
    ensures
        final(out)@ == old(out)@ + le_bytes(n as nat, 16),
{
    let mut v: u128 = n;
    let mut i: usize = 0;
    while i < 16
        invariant
            i <= 16,
            out@ + le_bytes(v as nat, (16 - i) as nat) == old(out)@ + le_bytes(n as nat, 16),
        decreases 16 - i,
    {
        out.push((v % 256) as u8);
        v = v / 256;
        i = i + 1;
        assert(out@ + le_bytes(v as nat, (16 - i) as nat) =~= old(out)@ + le_bytes(n as nat, 16));
    }
    assert(out@ =~= out@ + le_bytes(v as nat, 0));
}

/// Reads a `u128` from 16 little-endian bytes at `start`.
fn read_u128_le(bytes: &Vec<u8>, start: usize) -> (r: u128)
    requires
        start + 16 <= bytes@.len(),
    ensures
        r == le_val(bytes@.subrange(start as int, start as int + 16)),
{
    let n = bytes.len();
    let mut acc: u128 = 0;
    let mut i: usize = 0;
    while i < 16
        invariant
            n == bytes@.len(),
            start + 16 <= n,
            i <= 16,
            acc == le_val(bytes@.subrange(start as int + 16 - i, start as int + 16)),
            acc < pow256(i as nat),
        decreases 16 - i,
    {
        let b = bytes[start + 15 - i];
        proof {
            assert(bytes@.subrange(start as int + 15 - i, start as int + 16).subrange(
                1,
                (i + 1) as int,
            ) =~= bytes@.subrange(start as int + 16 - i, start as int + 16));
            assert(pow256((i + 1) as nat) == 256 * pow256(i as nat));
            lemma_pow256_increases((i + 1) as nat, 16);
            lemma_pow256_16();
        }
        acc = acc * 256 + (b as u128);
        i = i + 1;
    }
    acc
}

/// Copies a block's bytes onto the end of the output.
fn append_block(out: &mut Vec<u8>, b: &Vec<u8>)
    ensures
        final(out)@ == old(out)@ + b@,
{
    let mut k: usize = 0;
    while k < b.len()
        invariant
            k <= b@.len(),
            out@ == old(out)@ + b@.take(k as int),
        decreases b@.len() - k,
    {
        out.push(b[k]);
        k = k + 1;
        assert(out@ =~= old(out)@ + b@.take(k as int));
    }
    assert(b@.take(b@.len() as int) =~= b@);
}

/// Copies the 32-byte block starting at `start` out of the record's bytes.
fn read_block(bytes: &Vec<u8>, start: usize) -> (b: Vec<u8>)
    requires
        start + 32 <= bytes@.len(),
    ensures
        b@ == bytes@.subrange(start as int, start as int + 32),
{
    let n = bytes.len();
    let mut b: Vec<u8> = Vec::new();
    let mut k: usize = 0;
    while k < 32
        invariant
            n == bytes@.len(),
            start + 32 <= n,
            k <= 32,
            b@ == bytes@.subrange(start as int, start as int + k),
        decreases 32 - k,
    {
        b.push(bytes[start + k]);
        k = k + 1;
        assert(b@ =~= bytes@.subrange(start as int, start as int + k));
    }
    b
}

/// Copyable wrapper around the vault ciphertext: the storage layer requires
/// value-copy semantics, which the engine's native encrypted type does not
/// offer, so cloning copies the nonce and every block.
#[derive(Debug, PartialEq, Eq)]
pub struct MXEWrapper {
    pub inner: VaultCiphertext,
}

impl Clone for MXEWrapper {
    /// Deep copy: the clone carries the same nonce and the same block bytes.
    fn clone(&self) -> (r: Self)
        ensures
            r.inner.model() == self.inner.model(),
            r.inner.wf() == self.inner.wf(),
    {
        let mut ciphertexts: Vec<Vec<u8>> = Vec::new();
        let mut j: usize = 0;
        let n = self.inner.ciphertexts.len();
        while j < n
            invariant
                n == self.inner.ciphertexts@.len(),
                j <= n,
                ciphertexts@.len() == j,
                forall|i: int|
                    0 <= i < j ==> (#[trigger] ciphertexts@[i])@ == self.inner.ciphertexts@[i]@,
            decreases n - j,
        {
            let mut block: Vec<u8> = Vec::new();
            let mut k: usize = 0;
            let m = self.inner.ciphertexts[j].len();
            while k < m
                invariant
                    j < self.inner.ciphertexts@.len(),
                    m == self.inner.ciphertexts@[j as int]@.len(),
                    k <= m,
                    block@ == self.inner.ciphertexts@[j as int]@.take(k as int),
                decreases m - k,
            {
                block.push(self.inner.ciphertexts[j][k]);
                k = k + 1;
                assert(block@ =~= self.inner.ciphertexts@[j as int]@.take(k as int));
            }
            assert(block@ =~= self.inner.ciphertexts@[j as int]@);
            ciphertexts.push(block);
            j = j + 1;
        }
        let r = MXEWrapper { inner: VaultCiphertext { nonce: self.inner.nonce, ciphertexts } };
        proof {
            assert(r.inner.model().1 =~= self.inner.model().1);
            if self.inner.wf() {
                assert forall|i: int| 0 <= i < 6 implies (#[trigger] r.inner.ciphertexts@[i])@.len()
                    == 32 by {
                    assert(r.inner.ciphertexts@[i]@ == self.inner.ciphertexts@[i]@);
                }
            }
            if r.inner.wf() {
                assert forall|i: int|
                    0 <= i < 6 implies (#[trigger] self.inner.ciphertexts@[i])@.len() == 32 by {
                    assert(r.inner.ciphertexts@[i]@ == self.inner.ciphertexts@[i]@);
                }
            }
        }
        r
    }
}

/// The per-user on-chain record: owns exactly one vault ciphertext, behind
/// the copyable wrapper the storage layer asks for.
#[derive(Debug, PartialEq, Eq)]
pub struct UserProfile {
    pub interest_profile: MXEWrapper,
}

} // verus!
