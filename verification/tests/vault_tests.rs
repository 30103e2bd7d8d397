use iap_vault::codec::{
    decode_input, encode_output, ConversionError, EngineValue, SharedCiphertext,
};
use iap_vault::field::{bytes_to_field, field_to_bytes_128, field_to_bytes_32, FieldElement};
use iap_vault::store::{store_interest_profile, store_tier};
use iap_vault::vault::{MXEWrapper, UserProfile, VaultCiphertext};

/// A 32-byte block starting with the given bytes, zero-padded.
fn block(prefix: &[u8]) -> Vec<u8> {
    let mut b = vec![0u8; 32];
    b[..prefix.len()].copy_from_slice(prefix);
    b
}

fn field(prefix: &[u8]) -> FieldElement {
    bytes_to_field(&block(prefix))
}

fn shared(blocks: Vec<Vec<u8>>, key: Vec<u8>, nonce: u128) -> SharedCiphertext {
    SharedCiphertext { ciphertexts: blocks, encryption_key: key, nonce }
}

/// Engine output of one nonce field and six ciphertext fields.
fn outputs_of(nonce_field: FieldElement, fields: Vec<FieldElement>) -> Vec<EngineValue> {
    let mut outs = vec![EngineValue::Base(nonce_field)];
    for f in fields {
        outs.push(EngineValue::Base(f));
    }
    outs
}

#[test]
fn block_round_trip() {
    let cases: Vec<Vec<u8>> = vec![
        block(&[]),
        block(&[1, 2, 3]),
        vec![0xFF; 32],
        (0u8..32).collect(),
        block(&[0, 0, 0, 0, 0, 0, 0, 0, 0, 0, 0, 0, 0, 0, 0, 0, 9]),
    ];
    for b in cases {
        let f = bytes_to_field(&b);
        assert_eq!(field_to_bytes_32(&f), b);
    }
}

#[test]
fn field_value_little_endian() {
    let f = field(&[1, 2]);
    assert_eq!(field_to_bytes_128(&f), 513);
    let g = field(&[0, 0, 1]);
    assert_eq!(field_to_bytes_128(&g), 65536);
}

#[test]
fn nonce_truncation_ignores_high_bytes() {
    let mut low = vec![0u8; 32];
    for (i, b) in low.iter_mut().enumerate().take(16) {
        *b = i as u8 + 1;
    }
    let mut high = low.clone();
    for b in high.iter_mut().skip(16) {
        *b = 0xAB;
    }
    let n_low = field_to_bytes_128(&bytes_to_field(&low));
    let n_high = field_to_bytes_128(&bytes_to_field(&high));
    assert_eq!(n_low, n_high);
    assert_eq!(n_low, u128::from_le_bytes(low[..16].try_into().unwrap()));
}

#[test]
fn nonce_truncation_max() {
    let f = bytes_to_field(&vec![0xFF; 32]);
    assert_eq!(field_to_bytes_128(&f), u128::MAX);
}

#[test]
fn order_preservation_identity_lift() {
    let blocks: Vec<Vec<u8>> = (0u8..6).map(|i| block(&[i + 1, 10 * i])).collect();
    let c = shared(blocks.clone(), vec![0u8; 32], 0);
    let fields = decode_input(&c).unwrap();
    let outs = outputs_of(field(&[7]), fields);
    let vault = encode_output(&outs).unwrap();
    assert_eq!(vault.ciphertexts, blocks);
    assert_eq!(vault.nonce, 7);
}

#[test]
fn malformed_input_rejected() {
    let five = shared(vec![vec![0u8; 32]; 5], vec![0u8; 32], 0);
    assert_eq!(decode_input(&five), Err(ConversionError::MalformedInput));
    let narrow = shared(
        vec![vec![0u8; 32], vec![0u8; 31], vec![0u8; 32], vec![0u8; 32], vec![0u8; 32], vec![
            0u8;
            32
        ]],
        vec![0u8; 32],
        0,
    );
    assert_eq!(decode_input(&narrow), Err(ConversionError::MalformedInput));
    let bad_key = shared(vec![vec![0u8; 32]; 6], vec![0u8; 16], 0);
    assert_eq!(decode_input(&bad_key), Err(ConversionError::MalformedInput));
}

#[test]
fn shape_rejection_short_output() {
    // Six elements: the nonce field is missing.
    let outs: Vec<EngineValue> = (0..6).map(|i| EngineValue::Base(field(&[i]))).collect();
    assert_eq!(encode_output(&outs), Err(ConversionError::EngineOutputShapeError));
}

#[test]
fn shape_rejection_long_output() {
    let outs: Vec<EngineValue> = (0..8).map(|i| EngineValue::Base(field(&[i]))).collect();
    assert_eq!(encode_output(&outs), Err(ConversionError::EngineOutputShapeError));
}

#[test]
fn shape_rejection_non_base_output() {
    let mut outs = outputs_of(field(&[1]), (0u8..6).map(|i| field(&[i])).collect());
    outs[3] = EngineValue::NonBase;
    assert_eq!(encode_output(&outs), Err(ConversionError::EngineOutputShapeError));
}

#[test]
fn shape_rejection_leaves_record_untouched() {
    let mut account: Option<UserProfile> = None;
    let good = outputs_of(field(&[9]), (0u8..6).map(|i| field(&[i, i])).collect());
    store_interest_profile(&mut account, &good).unwrap();
    let before = account.as_ref().unwrap().interest_profile.inner.to_bytes();

    let short: Vec<EngineValue> = (0..6).map(|i| EngineValue::Base(field(&[i]))).collect();
    let r = store_interest_profile(&mut account, &short);
    assert_eq!(r, Err(ConversionError::EngineOutputShapeError));
    let after = account.as_ref().unwrap().interest_profile.inner.to_bytes();
    assert_eq!(before, after);
}

#[test]
fn idempotent_creation() {
    let mut account: Option<UserProfile> = None;
    let first = outputs_of(field(&[1]), (0u8..6).map(|i| field(&[i])).collect());
    store_interest_profile(&mut account, &first).unwrap();
    assert!(account.is_some());

    let second = outputs_of(field(&[2]), (0u8..6).map(|i| field(&[i + 6])).collect());
    store_interest_profile(&mut account, &second).unwrap();
    // Still exactly one record, now holding the second write.
    assert!(account.is_some());
    assert_eq!(account.as_ref().unwrap().interest_profile.inner.nonce, 2);
}

#[test]
fn end_to_end_zero_profile() {
    // Six all-zero blocks, a 32-zero-byte key, nonce 0.
    let c = shared(vec![vec![0u8; 32]; 6], vec![0u8; 32], 0);
    let fields = decode_input(&c).unwrap();
    for f in &fields {
        assert_eq!(field_to_bytes_128(f), 0);
        assert_eq!(field_to_bytes_32(f), vec![0u8; 32]);
    }

    // Stub lift: the engine answers with field sequence [42, 0, 0, 0, 0, 0, 0].
    let outs = outputs_of(field(&[42]), fields);
    let mut account: Option<UserProfile> = None;
    store_interest_profile(&mut account, &outs).unwrap();
    let vault = &account.as_ref().unwrap().interest_profile.inner;
    assert_eq!(vault.nonce, 42);
    assert_eq!(vault.ciphertexts, vec![vec![0u8; 32]; 6]);

    let wire = vault.to_bytes();
    assert_eq!(wire.len(), 208);
    assert_eq!(&wire[..16], &42u128.to_le_bytes());
    assert!(wire[16..].iter().all(|&b| b == 0));
}

#[test]
fn wire_round_trip() {
    let vault = VaultCiphertext {
        nonce: 0xDEAD_BEEF_0123_4567_89AB_CDEF_0011_2233,
        ciphertexts: (0u8..6).map(|i| (0u8..32).map(|k| i * 32 + k).collect()).collect(),
    };
    let wire = vault.to_bytes();
    assert_eq!(wire.len(), 208);
    let back = VaultCiphertext::from_bytes(&wire).unwrap();
    assert_eq!(back, vault);
}

#[test]
fn wire_wrong_length_rejected() {
    assert_eq!(VaultCiphertext::from_bytes(&vec![0u8; 207]), Err(ConversionError::MalformedInput));
    assert_eq!(VaultCiphertext::from_bytes(&vec![0u8; 216]), Err(ConversionError::MalformedInput));
}

#[test]
fn wrapper_clone_is_deep() {
    let vault = VaultCiphertext {
        nonce: 5,
        ciphertexts: (0u8..6).map(|i| vec![i; 32]).collect(),
    };
    let wrapper = MXEWrapper { inner: vault };
    let copy = wrapper.clone();
    assert_eq!(copy, wrapper);
    let mut mutated = wrapper;
    mutated.inner.ciphertexts[0][0] = 99;
    assert_eq!(copy.inner.ciphertexts[0][0], 0);
}

#[test]
fn store_tier_is_a_no_op() {
    let mut account: Option<UserProfile> = None;
    let tier = shared(vec![vec![0u8; 32]], vec![0u8; 32], 0);
    assert_eq!(store_tier(&mut account, &tier), Ok(()));
    assert!(account.is_none());
}
