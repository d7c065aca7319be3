//! Address derivation: the chain's canonical, human-readable account
//! address of a compressed public key.

use vstd::prelude::*;
use crate::crypto;
use crate::errors::KeystoreError;

verus! {

/// The canonical address of a compressed public key: the bech32 encoding,
/// under the `cosmos` prefix, of the RIPEMD-160 digest of the SHA-256
/// digest of the key bytes. A pure function of the key bytes.
pub open spec fn address_of(public_key: Seq<u8>) -> Seq<char> {
    crypto::bech32_of("cosmos"@, crypto::ripemd160_of(crypto::sha256_of(public_key)))
}

/// Derives the account address of a compressed (33-byte) public key.
/// `Err(InvalidPublicKey)` exactly on any other length.
pub fn derive_address(public_key: &Vec<u8>) -> (r: Result<String, KeystoreError>)
    ensures
        r matches Ok(a) ==> a@ == address_of(public_key@),
        r is Ok <==> public_key@.len() == 33,
        r matches Err(e) ==> e == KeystoreError::InvalidPublicKey,
{
    if public_key.len() != 33 {
        return Err(KeystoreError::InvalidPublicKey);
    }
    let digest = crypto::ripemd160(&crypto::sha256(public_key));
    match crypto::bech32_encode("cosmos", &digest) {
        Some(a) => Ok(a),
        None => {
            proof {
                reveal_strlit("cosmos");
                assert(false);
            }
            Err(KeystoreError::InvalidPublicKey)
        },
    }
}

/// The address is a function of the public key alone: any two
/// derivations from equal key bytes are equal, within one process or
/// after a store reload.
pub proof fn lemma_address_deterministic(
    public_key: Seq<u8>,
    a1: Seq<char>,
    a2: Seq<char>,
)
    requires
        a1 == address_of(public_key),
        a2 == address_of(public_key),
    ensures
        a1 == a2,
{
}

} // verus!
