//! Key custody for a cross-chain relayer: a named keystore holding
//! secp256k1 key material, deterministic hierarchical key derivation,
//! bech32 address derivation, payload canonicalization and signing.

pub mod address;
pub mod canonical;
pub mod codec;
pub mod crypto;
pub mod errors;
pub mod material;
pub mod show;
pub mod signer;
pub mod store;
pub mod wire;
