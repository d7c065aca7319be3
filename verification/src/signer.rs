//! The signer: stateless signing of raw payloads and of canonicalized
//! structured payloads with a named key from a store.

use vstd::prelude::*;
use crate::canonical;
use crate::canonical::SignDoc;
use crate::crypto;
use crate::errors::KeystoreError;
use crate::store::KeyStore;
use crate::store::has_name;
use crate::store::named_key;

verus! {

/// A signature over a payload, tagged with the signing key's name. The
/// signature bytes are the 64-byte compact ECDSA form.
pub struct Signature {
    pub signer_name: String,
    pub signature_bytes: Vec<u8>,
}

/// Signs `payload` with the key named `name`. `NotFound` exactly where
/// the store has no such key; `Signing` exactly where the algorithm
/// rejects the request; otherwise the deterministic signature of the
/// payload under that key.
pub fn sign(store: &KeyStore, name: &str, payload: &Vec<u8>) -> (r: Result<
    Signature,
    KeystoreError,
>)
    requires
        store.wf(),
    ensures
        r is Ok <==> has_name(store@, name@) && crypto::sig_of(
            named_key(store@, name@),
            payload@,
        ) is Some,
        r matches Ok(sig) ==> sig.signer_name@ == name@ && Some(sig.signature_bytes@)
            == crypto::sig_of(named_key(store@, name@), payload@),
        r matches Err(e) ==> (e == KeystoreError::NotFound <==> !has_name(store@, name@)) && (e
            == KeystoreError::NotFound || e == KeystoreError::Signing),
{
    let km = match store.get(name) {
        Ok(k) => k,
        Err(_) => {
            return Err(KeystoreError::NotFound);
        },
    };
    match crypto::secp256k1_sign(&km.private_key, payload) {
        Some(bytes) => Ok(Signature { signer_name: name.to_owned(), signature_bytes: bytes }),
        None => Err(KeystoreError::Signing),
    }
}

/// Canonicalizes a structured payload and signs the canonical bytes, so
/// that what is signed is a function of the payload's logical value and,
/// by canonicalization injectivity, of nothing less.
pub fn sign_structured(store: &KeyStore, name: &str, doc: &SignDoc) -> (r: Result<
    Signature,
    KeystoreError,
>)
    requires
        store.wf(),
    ensures
        r is Ok <==> has_name(store@, name@) && crypto::sig_of(
            named_key(store@, name@),
            canonical::canon_spec(doc@),
        ) is Some,
        r matches Ok(sig) ==> sig.signer_name@ == name@ && Some(sig.signature_bytes@)
            == crypto::sig_of(named_key(store@, name@), canonical::canon_spec(doc@)),
        r matches Err(e) ==> (e == KeystoreError::NotFound <==> !has_name(store@, name@)) && (e
            == KeystoreError::NotFound || e == KeystoreError::Signing),
{
    let bytes = canonical::canonical_bytes(doc);
    sign(store, name, &bytes)
}

/// Checks a 64-byte signature over `payload` against a compressed public
/// key; acceptance is exactly the curve verifier's.
pub fn verify_signature(public_key: &Vec<u8>, payload: &Vec<u8>, signature_bytes: &Vec<u8>) -> (r:
    bool)
    ensures
        r == crypto::verify_of(public_key@, payload@, signature_bytes@),
{
    crypto::secp256k1_verify(public_key, payload, signature_bytes)
}

/// Signing is deterministic and payload-faithful: under one key, the
/// signature bytes are a function of the canonical payload bytes, and two
/// structured payloads get the same canonical bytes only when their
/// logical values are equal.
pub proof fn lemma_structured_signing_faithful(
    key: Seq<u8>,
    d1: canonical::SignDocView,
    d2: canonical::SignDocView,
)
    requires
        canonical::canon_encodable(d1),
        canonical::canon_encodable(d2),
    ensures
        d1 == d2 ==> crypto::sig_of(key, canonical::canon_spec(d1)) == crypto::sig_of(
            key,
            canonical::canon_spec(d2),
        ),
        canonical::canon_spec(d1) == canonical::canon_spec(d2) ==> d1 == d2,
{
    if canonical::canon_spec(d1) == canonical::canon_spec(d2) {
        canonical::lemma_canonical_injective(d1, d2);
    }
}

} // verus!
