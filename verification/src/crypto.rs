//! Trusted boundary to the cryptographic crates. Every item here is an
//! `external_body` wrapper around one outside call, together with the
//! uninterpreted names that stand for those calls' results. Nothing else
//! in the library is trusted.

use vstd::prelude::*;
use sha2::Digest;
use k256::ecdsa::signature::Signer;
use k256::ecdsa::signature::Verifier;
use rand::RngCore;

verus! {

/// The SHA-256 digest of a byte sequence, as sha2 computes it.
pub uninterp spec fn sha256_of(data: Seq<u8>) -> Seq<u8>;

/// The RIPEMD-160 digest of a byte sequence, as ripemd computes it.
pub uninterp spec fn ripemd160_of(data: Seq<u8>) -> Seq<u8>;

/// The lowercase bech32 string that encodes `data` under the prefix `hrp`,
/// as the bech32 crate computes it.
pub uninterp spec fn bech32_of(hrp: Seq<char>, data: Seq<u8>) -> Seq<char>;

/// The compressed SEC1 public key belonging to a secp256k1 secret scalar,
/// or `None` where the bytes are not a usable scalar (zero, or not below
/// the curve order).
pub uninterp spec fn pubkey_of(private_key: Seq<u8>) -> Option<Seq<u8>>;

/// The deterministic (RFC 6979) ECDSA/secp256k1 signature of `message`
/// under a secret scalar, or `None` where signing is rejected.
pub uninterp spec fn sig_of(private_key: Seq<u8>, message: Seq<u8>) -> Option<Seq<u8>>;

/// Whether `signature` is a valid ECDSA/secp256k1 signature of `message`
/// under the SEC1-encoded `public_key`, as k256's verifier decides it.
pub uninterp spec fn verify_of(public_key: Seq<u8>, message: Seq<u8>, signature: Seq<u8>) -> bool;

/// Relies on `sha2::Sha256::digest`: a 32-byte digest determined by the
/// input bytes alone.
#[verifier::external_body]
pub(crate) fn sha256(data: &Vec<u8>) -> (r: Vec<u8>)
    ensures
        r@ == sha256_of(data@),
        r@.len() == 32,
{
    sha2::Sha256::digest(data.as_slice()).to_vec()
}

/// Relies on `ripemd::Ripemd160::digest`: a 20-byte digest determined by
/// the input bytes alone.
#[verifier::external_body]
pub(crate) fn ripemd160(data: &Vec<u8>) -> (r: Vec<u8>)
    ensures
        r@ == ripemd160_of(data@),
        r@.len() == 20,
{
    ripemd::Ripemd160::digest(data.as_slice()).to_vec()
}

/// Relies on `bech32::Hrp::parse` and `bech32::encode::<Bech32>`: the
/// encoding is determined by `hrp` and `data` alone; encoding succeeds when
/// the prefix is 1 to 83 lowercase letters and the code length
/// `hrp.len() + 1 + ceil(8 * data.len() / 5) + 6` stays within the crate's
/// limit of 1023 characters.
#[verifier::external_body]
pub(crate) fn bech32_encode(hrp: &str, data: &Vec<u8>) -> (r: Option<String>)
    ensures
        r matches Some(s) ==> s@ == bech32_of(hrp@, data@),
        (1 <= hrp@.len() <= 83 && (forall|i: int|
            0 <= i < hrp@.len() ==> 'a' <= #[trigger] hrp@[i] <= 'z') && hrp@.len() + 7 + (
        data@.len() * 8 + 4) / 5 <= 1023) ==> r is Some,
{
    let parsed = match bech32::Hrp::parse(hrp) {
        Ok(h) => h,
        Err(_) => return None,
    };
    match bech32::encode::<bech32::Bech32>(parsed, data.as_slice()) {
        Ok(s) => Some(s),
        Err(_) => None,
    }
}

/// Relies on `k256::ecdsa::SigningKey::from_slice` (accepts exactly the
/// 32-byte scalars that are nonzero and below the curve order) and
/// `VerifyingKey::to_encoded_point` with compression (33 bytes), both
/// determined by the scalar alone.
#[verifier::external_body]
pub(crate) fn secp256k1_pubkey(private_key: &Vec<u8>) -> (r: Option<Vec<u8>>)
    ensures
        r matches Some(pk) ==> pubkey_of(private_key@) == Some(pk@) && pk@.len() == 33,
        r is None ==> pubkey_of(private_key@) is None,
{
    let sk = match k256::ecdsa::SigningKey::from_slice(private_key.as_slice()) {
        Ok(k) => k,
        Err(_) => return None,
    };
    Some(sk.verifying_key().to_encoded_point(true).as_bytes().to_vec())
}

/// Relies on `k256::ecdsa::SigningKey::try_sign`: deterministic RFC 6979
/// ECDSA, so the 64-byte signature is determined by the scalar and the
/// message alone.
#[verifier::external_body]
pub(crate) fn secp256k1_sign(private_key: &Vec<u8>, message: &Vec<u8>) -> (r: Option<Vec<u8>>)
    ensures
        r matches Some(s) ==> sig_of(private_key@, message@) == Some(s@) && s@.len() == 64,
        r is None ==> sig_of(private_key@, message@) is None,
{
    let sk = match k256::ecdsa::SigningKey::from_slice(private_key.as_slice()) {
        Ok(k) => k,
        Err(_) => return None,
    };
    let sig: k256::ecdsa::Signature = match sk.try_sign(message.as_slice()) {
        Ok(s) => s,
        Err(_) => return None,
    };
    Some(sig.to_bytes().to_vec())
}

/// Relies on `k256::ecdsa::VerifyingKey::from_sec1_bytes`,
/// `Signature::from_slice` and `VerifyingKey::verify`: acceptance is
/// determined by the three inputs alone; malformed keys or signatures are
/// rejected.
#[verifier::external_body]
pub(crate) fn secp256k1_verify(public_key: &Vec<u8>, message: &Vec<u8>, signature: &Vec<u8>) -> (r:
    bool)
    ensures
        r == verify_of(public_key@, message@, signature@),
{
    let vk = match k256::ecdsa::VerifyingKey::from_sec1_bytes(public_key.as_slice()) {
        Ok(k) => k,
        Err(_) => return false,
    };
    let sig = match k256::ecdsa::Signature::from_slice(signature.as_slice()) {
        Ok(s) => s,
        Err(_) => return false,
    };
    vk.verify(message.as_slice(), &sig).is_ok()
}

/// Relies on `rand::rngs::OsRng::try_fill_bytes`: fills the buffer from the
/// operating system's entropy source, or reports failure. Nothing relates
/// one outcome to another.
#[verifier::external_body]
pub(crate) fn random_bytes(n: usize) -> (r: Option<Vec<u8>>)
    ensures
        r matches Some(v) ==> v@.len() == n,
{
    let mut buf = vec![0u8; n];
    match rand::rngs::OsRng.try_fill_bytes(&mut buf) {
        Ok(()) => Some(buf),
        Err(_) => None,
    }
}

/// Relies on `String::from_utf8` (std): succeeds exactly on valid UTF-8
/// and returns the string whose UTF-8 encoding is the given bytes.
#[verifier::external_body]
pub(crate) fn string_from_utf8(bytes: Vec<u8>) -> (r: Option<String>)
    ensures
        r matches Some(s) ==> vstd::utf8::encode_utf8(s@) == bytes@,
        r is Some <==> vstd::utf8::valid_utf8(bytes@),
{
    match String::from_utf8(bytes) {
        Ok(s) => Some(s),
        Err(_) => None,
    }
}

} // verus!
