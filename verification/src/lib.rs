//! Conversion and encoding layer for an encrypted interest-profile vault.
//!
//! A client submits a record encrypted under a shared key: six opaque 32-byte
//! ciphertext blocks, an encryption public key and a nonce. This library
//! decodes the blocks into field elements, hands them to a confidential
//! computation engine that reseals the record under the vault's own key, and
//! encodes the engine's output (one nonce field plus six ciphertext fields)
//! back into a fixed 208-byte storage record.

pub mod codec;
pub mod field;
pub mod store;
pub mod vault;
