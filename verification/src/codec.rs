//! Record codec: unpacking the client's ciphertext blocks into field
//! elements for the confidential computation engine, and packing the engine's
//! output sequence — one nonce field, then six ciphertext fields — back into
//! a vault ciphertext.

use crate::field::{
    bytes_to_field, field_to_bytes_128, field_to_bytes_32, le_bytes, le_val, lemma_le_bytes_len,
    lemma_le_bytes_of_le_val, pow256, FieldElement,
};
use crate::vault::VaultCiphertext;
use vstd::prelude::*;

verus! {

/// A failure of the conversion layer. Every failure aborts the write and
/// leaves the stored record unchanged.
#[derive(Clone, Copy, Debug, PartialEq, Eq, Structural)]
pub enum ConversionError {
    /// The client submission has the wrong shape: a block count other than
    /// six, a block narrower or wider than 32 bytes, or a key that is not 32
    /// bytes.
    MalformedInput,
    /// The engine's output sequence has the wrong shape: fewer or more than
    /// seven elements, or an element that is not a base field value.
    EngineOutputShapeError,
}

/// A client submission: six ciphertext blocks encrypted under the key shared
/// between the client and the engine, the client's encryption public key, and
/// the encryption nonce.
#[derive(Debug, PartialEq, Eq)]
pub struct SharedCiphertext {
    pub ciphertexts: Vec<Vec<u8>>,
    pub encryption_key: Vec<u8>,
    pub nonce: u128,
}

impl SharedCiphertext {
    /// Well-formed: exactly six blocks of exactly 32 bytes, and a 32-byte
    /// encryption key.
    pub open spec fn wf(self) -> bool {
        &&& self.ciphertexts@.len() == 6
        &&& (forall|i: int| 0 <= i < 6 ==> (#[trigger] self.ciphertexts@[i])@.len() == 32)
        &&& self.encryption_key@.len() == 32
    }
}

/// One element of the engine's output sequence. The engine's values live in
/// several arithmetic domains; only base-field values carry record data, so
/// the codec models every other domain as `NonBase` and rejects it.
#[derive(Debug)]
pub enum EngineValue {
    /// A base field value.
    Base(FieldElement),
    /// A value of any other domain (a bit, a scalar, a curve point).
    NonBase,
}

impl EngineValue {
    /// Well-formed: a carried field element is well-formed.
    pub open spec fn wf(self) -> bool {
        self matches EngineValue::Base(f) ==> f.wf()
    }

    /// The value of a base element; immaterial for any other domain.
    pub open spec fn base_val(self) -> nat {
        match self {
            EngineValue::Base(f) => f@,
            EngineValue::NonBase => 0,
        }
    }
}

/// The shape the engine owes: exactly seven elements — the output nonce and
/// the six resealed ciphertext fields — every one a base field value.
pub open spec fn engine_output_ok(outs: Seq<EngineValue>) -> bool {
    &&& outs.len() == 7
    &&& forall|i: int| 0 <= i < 7 ==> (#[trigger] outs[i]) matches EngineValue::Base(_)
}

/// How a packed vault ciphertext relates to the engine output it came from:
/// the stored nonce is the first element's value truncated to 128 bits, and
/// block `i` is the 32-byte image of element `i + 1`, in the input field
/// order.
pub open spec fn vault_matches_output(v: VaultCiphertext, outs: Seq<EngineValue>) -> bool {
    &&& v.wf()
    &&& v.nonce == outs[0].base_val() % pow256(16)
    &&& forall|i: int|
        0 <= i < 6 ==> (#[trigger] v.ciphertexts@[i])@ == le_bytes(outs[i + 1].base_val(), 32)
}

/// Decodes the client's six ciphertext blocks into field elements, in block
/// order — position 0 is the tier field, position 5 the defi-interactions
/// field. A submission of any other shape is rejected as malformed, exactly
/// when `wf` fails.
pub fn decode_input(c: &SharedCiphertext) -> (r: Result<Vec<FieldElement>, ConversionError>)
    ensures
        c.wf() ==> (r matches Ok(fs) && fs@.len() == 6 && (forall|i: int|
            0 <= i < 6 ==> (#[trigger] fs@[i]).wf() && fs@[i]@ == le_val(c.ciphertexts@[i]@))),
        !c.wf() ==> r == Err::<Vec<FieldElement>, ConversionError>(ConversionError::MalformedInput),
{
    if c.ciphertexts.len() != 6 || c.encryption_key.len() != 32 {
        return Err(ConversionError::MalformedInput);
    }
    let mut i: usize = 0;
    while i < 6
        invariant
            c.ciphertexts@.len() == 6,
            i <= 6,
            forall|k: int| 0 <= k < i ==> (#[trigger] c.ciphertexts@[k])@.len() == 32,
        decreases 6 - i,
    {
        if c.ciphertexts[i].len() != 32 {
            return Err(ConversionError::MalformedInput);
        }
        i = i + 1;
    }
    let mut fields: Vec<FieldElement> = Vec::new();
    let mut i: usize = 0;
    while i < 6
        invariant
            c.wf(),
            i <= 6,
            fields@.len() == i,
            forall|k: int|
                0 <= k < i ==> (#[trigger] fields@[k]).wf() && fields@[k]@ == le_val(
                    c.ciphertexts@[k]@,
                ),
        decreases 6 - i,
    {
        fields.push(bytes_to_field(&c.ciphertexts[i]));
        i = i + 1;
    }
    Ok(fields)
}

/// Packs the engine's output sequence into a vault ciphertext: the first
/// element is the output nonce, truncated to 128 bits, and the next six are
/// the ciphertext fields, kept in order. An output of any other shape is
/// rejected — never partially stored and never silently truncated — exactly
/// when `engine_output_ok` fails.
pub fn encode_output(outputs: &Vec<EngineValue>) -> (r: Result<VaultCiphertext, ConversionError>)
    requires
        forall|i: int| 0 <= i < outputs@.len() ==> (#[trigger] outputs@[i]).wf(),
    ensures
        engine_output_ok(outputs@) ==> (r matches Ok(v) && vault_matches_output(v, outputs@)),
        !engine_output_ok(outputs@) ==> r == Err::<VaultCiphertext, ConversionError>(
            ConversionError::EngineOutputShapeError,
        ),
{
    if outputs.len() != 7 {
        return Err(ConversionError::EngineOutputShapeError);
    }
    let nonce: u128 = match &outputs[0] {
        EngineValue::Base(f) => field_to_bytes_128(f),
        EngineValue::NonBase => {
            return Err(ConversionError::EngineOutputShapeError);
        },
    };
    let mut ciphertexts: Vec<Vec<u8>> = Vec::new();
    let mut i: usize = 0;
    while i < 6
        invariant
            outputs@.len() == 7,
            forall|k: int| 0 <= k < 7 ==> (#[trigger] outputs@[k]).wf(),
            outputs@[0] matches EngineValue::Base(_),
            nonce == outputs@[0].base_val() % pow256(16),
            i <= 6,
            ciphertexts@.len() == i,
            forall|k: int| 0 <= k < i ==> (#[trigger] outputs@[k + 1]) matches EngineValue::Base(_),
            forall|k: int|
                0 <= k < i ==> (#[trigger] ciphertexts@[k])@ == le_bytes(
                    outputs@[k + 1].base_val(),
                    32,
                ),
        decreases 6 - i,
    {
        match &outputs[i + 1] {
            EngineValue::Base(f) => {
                let block = field_to_bytes_32(f);
                ciphertexts.push(block);
            },
            EngineValue::NonBase => {
                return Err(ConversionError::EngineOutputShapeError);
            },
        }
        i = i + 1;
    }
    proof {
        assert forall|k: int| 0 <= k < 7 implies (#[trigger] outputs@[k]) matches EngineValue::Base(
            _,
        ) by {
            if k > 0 {
                assert(outputs@[(k - 1) + 1] matches EngineValue::Base(_));
            }
        }
        assert forall|k: int| 0 <= k < 6 implies (#[trigger] ciphertexts@[k])@.len() == 32 by {
            lemma_le_bytes_len(outputs@[k + 1].base_val(), 32);
        }
    }
    Ok(VaultCiphertext { nonce, ciphertexts })
}

/// Order-preservation law: when the engine output's field values are the
/// decoded input blocks themselves — an identity lift — the packed vault
/// ciphertext holds each input block at its input position.
pub proof fn lemma_order_preservation(
    v: VaultCiphertext,
    outs: Seq<EngineValue>,
    blocks: Seq<Seq<u8>>,
)
    requires
        vault_matches_output(v, outs),
        blocks.len() == 6,
        forall|i: int| 0 <= i < 6 ==> (#[trigger] blocks[i]).len() == 32,
        forall|i: int| 0 <= i < 6 ==> outs[i + 1].base_val() == le_val(#[trigger] blocks[i]),
    ensures
        forall|i: int| 0 <= i < 6 ==> (#[trigger] v.ciphertexts@[i])@ == blocks[i],
{
    assert forall|i: int| 0 <= i < 6 implies (#[trigger] v.ciphertexts@[i])@ == blocks[i] by {
        lemma_le_bytes_of_le_val(blocks[i]);
    }
}

} // verus!
