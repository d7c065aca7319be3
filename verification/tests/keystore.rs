use gorc_keys::address::derive_address;
use gorc_keys::canonical::{canonical_bytes, SignDoc};
use gorc_keys::codec::{decode_store, encode_store};
use gorc_keys::errors::KeystoreError;
use gorc_keys::material::{parse_derivation_path, KeyMaterial};
use gorc_keys::show::ShowCosmosKeyCmd;
use gorc_keys::signer::{sign, sign_structured, verify_signature};
use gorc_keys::store::KeyStore;


fn err_of<T>(r: Result<T, KeystoreError>) -> KeystoreError {
    match r {
        Err(e) => e,
        Ok(_) => panic!("expected an error"),
    }
}

fn seed(byte: u8) -> Vec<u8> {
    vec![byte; 32]
}

#[test]
fn from_seed_is_deterministic() {
    let s = seed(7);
    let a = KeyMaterial::from_seed("a", &s, "m/44'/118'/0'/0/0").unwrap();
    let b = KeyMaterial::from_seed("b", &s, "m/44'/118'/0'/0/0").unwrap();
    assert_eq!(a.private_key, b.private_key);
    assert_eq!(a.public_key, b.public_key);
    assert_eq!(a.derivation_path.as_deref(), Some("m/44'/118'/0'/0/0"));
}

#[test]
fn from_seed_differs_across_paths_and_seeds() {
    let a = KeyMaterial::from_seed("a", &seed(7), "m/0").unwrap();
    let b = KeyMaterial::from_seed("b", &seed(7), "m/1").unwrap();
    let c = KeyMaterial::from_seed("c", &seed(8), "m/0").unwrap();
    let d = KeyMaterial::from_seed("d", &seed(7), "m/0'").unwrap();
    assert_ne!(a.private_key, b.private_key);
    assert_ne!(a.private_key, c.private_key);
    assert_ne!(a.private_key, d.private_key);
}

#[test]
fn from_seed_rejects_bad_inputs() {
    let short = vec![1u8; 5];
    assert_eq!(
        err_of(KeyMaterial::from_seed("a", &short, "m/0")),
        KeystoreError::InvalidSeed
    );
    let long = vec![1u8; 65];
    assert_eq!(
        err_of(KeyMaterial::from_seed("a", &long, "m/0")),
        KeystoreError::InvalidSeed
    );
    for bad in ["", "x/1", "m/", "m//1", "m/abc", "m/1x", "44/0", "m/2147483648", "m/1''"] {
        assert_eq!(
            err_of(KeyMaterial::from_seed("a", &seed(1), bad)),
            KeystoreError::InvalidDerivationPath,
            "path {:?} should be rejected",
            bad
        );
    }
}

#[test]
fn derivation_path_grammar() {
    assert_eq!(parse_derivation_path("m").unwrap(), Vec::<u32>::new());
    assert_eq!(parse_derivation_path("m/0").unwrap(), vec![0]);
    assert_eq!(parse_derivation_path("m/2147483647").unwrap(), vec![2147483647]);
    assert_eq!(
        parse_derivation_path("m/44'/118'/0'/0/5").unwrap(),
        vec![
            44 + 0x8000_0000,
            118 + 0x8000_0000,
            0x8000_0000,
            0,
            5
        ]
    );
    assert!(parse_derivation_path("m/2147483648").is_err());
    assert!(parse_derivation_path("m/00000000001").is_err());
}

#[test]
fn derived_address_is_stable_and_canonical_in_form() {
    let km = KeyMaterial::from_seed("a", &seed(3), "m/0").unwrap();
    let a1 = derive_address(&km.public_key).unwrap();
    let a2 = derive_address(km.public_key()).unwrap();
    assert_eq!(a1, a2);
    assert!(a1.starts_with("cosmos1"));
    assert_eq!(a1.len(), 45);
    assert!(a1.bytes().all(|b| b.is_ascii_lowercase() || b.is_ascii_digit()));
    let other = KeyMaterial::from_seed("b", &seed(4), "m/0").unwrap();
    assert_ne!(a1, derive_address(&other.public_key).unwrap());
}

#[test]
fn derive_address_rejects_bad_length() {
    assert_eq!(
        derive_address(&vec![2u8; 10]).unwrap_err(),
        KeystoreError::InvalidPublicKey
    );
    assert_eq!(
        derive_address(&vec![2u8; 65]).unwrap_err(),
        KeystoreError::InvalidPublicKey
    );
}

#[test]
fn duplicate_add_fails_and_leaves_store_unchanged() {
    let mut store = KeyStore::new();
    let first = store.add("alice").unwrap();
    let before = store.list();
    assert_eq!(
        err_of(store.add("alice")),
        KeystoreError::DuplicateName
    );
    let after = store.list();
    assert_eq!(store.len(), 1);
    assert_eq!(before.len(), after.len());
    assert_eq!(before[0].name, after[0].name);
    assert_eq!(before[0].address, after[0].address);
    assert_eq!(after[0].address, derive_address(&first.public_key).unwrap());
}

#[test]
fn delete_then_get_is_not_found() {
    let mut store = KeyStore::new();
    store.add("alice").unwrap();
    store.delete("alice").unwrap();
    assert_eq!(err_of(store.get("alice")), KeystoreError::NotFound);
    assert_eq!(store.delete("alice").unwrap_err(), KeystoreError::NotFound);
    assert_eq!(store.len(), 0);
}

#[test]
fn import_duplicate_and_bad_raw_key() {
    let mut store = KeyStore::new();
    store.import("a", &seed(9), Some("m/0")).unwrap();
    assert_eq!(
        err_of(store.import("a", &seed(10), None)),
        KeystoreError::DuplicateName
    );
    assert_eq!(
        err_of(store.import("b", &vec![1u8; 7], None)),
        KeystoreError::InvalidSeed
    );
    let raw = KeyMaterial::from_seed("x", &seed(9), "m/0").unwrap().private_key;
    let imported = store.import("b", &raw, None).unwrap();
    assert_eq!(imported.private_key, raw);
}

#[test]
fn persisted_store_reloads_to_the_same_listing() {
    let mut store = KeyStore::new();
    store.add("gen").unwrap();
    store.import("hd", &seed(11), Some("m/44'/118'/0'/0/0")).unwrap();
    let raw = KeyMaterial::from_seed("r", &seed(12), "m/1").unwrap().private_key;
    store.import("raw", &raw, None).unwrap();
    let image = encode_store(&store);
    let reloaded = decode_store(&image).unwrap();
    let a = store.list();
    let b = reloaded.list();
    assert_eq!(a.len(), 3);
    assert_eq!(a.len(), b.len());
    for (x, y) in a.iter().zip(b.iter()) {
        assert_eq!(x.name, y.name);
        assert_eq!(x.address, y.address);
    }
    let hd = reloaded.get("hd").unwrap();
    assert_eq!(hd.derivation_path.as_deref(), Some("m/44'/118'/0'/0/0"));
}

#[test]
fn corrupt_images_are_rejected() {
    assert_eq!(
        err_of(decode_store(&vec![1, 2, 3])),
        KeystoreError::Persistence
    );
    let mut store = KeyStore::new();
    store.add("a").unwrap();
    let mut image = encode_store(&store);
    image.push(0);
    assert_eq!(err_of(decode_store(&image)), KeystoreError::Persistence);
    let mut truncated = encode_store(&store);
    truncated.pop();
    assert_eq!(
        err_of(decode_store(&truncated)),
        KeystoreError::Persistence
    );
}

fn doc(chain: &str, account: u64, sequence: u64, body: &[u8]) -> SignDoc {
    SignDoc {
        chain_id: chain.to_string(),
        account_number: account,
        sequence,
        body: body.to_vec(),
    }
}

#[test]
fn canonicalization_distinguishes_every_field() {
    let base = doc("gaia-1", 5, 9, b"transfer");
    let same = doc("gaia-1", 5, 9, b"transfer");
    assert_eq!(canonical_bytes(&base), canonical_bytes(&same));
    for other in [
        doc("gaia-2", 5, 9, b"transfer"),
        doc("gaia-1", 6, 9, b"transfer"),
        doc("gaia-1", 5, 10, b"transfer"),
        doc("gaia-1", 5, 9, b"transfer!"),
        doc("gaia-", 1, 9, b"transfer"),
    ] {
        assert_ne!(canonical_bytes(&base), canonical_bytes(&other));
    }
}

#[test]
fn structured_signatures_differ_for_different_payloads() {
    let mut store = KeyStore::new();
    store.import("signer", &seed(21), Some("m/0")).unwrap();
    let s1 = sign_structured(&store, "signer", &doc("gaia-1", 5, 9, b"a")).unwrap();
    let s2 = sign_structured(&store, "signer", &doc("gaia-1", 5, 10, b"a")).unwrap();
    let s3 = sign_structured(&store, "signer", &doc("gaia-1", 5, 9, b"a")).unwrap();
    assert_ne!(s1.signature_bytes, s2.signature_bytes);
    assert_eq!(s1.signature_bytes, s3.signature_bytes);
    let pk = &store.get("signer").unwrap().public_key.clone();
    let canon = canonical_bytes(&doc("gaia-1", 5, 9, b"a"));
    assert!(verify_signature(pk, &canon, &s1.signature_bytes));
}

#[test]
fn signing_unknown_name_is_not_found() {
    let store = KeyStore::new();
    assert_eq!(
        err_of(sign(&store, "ghost", &b"hello".to_vec())),
        KeystoreError::NotFound
    );
}

#[test]
fn show_command_reports_name_and_address() {
    let mut store = KeyStore::new();
    store.add("validator").unwrap();
    let cmd = ShowCosmosKeyCmd {
        name: "validator".to_string(),
    };
    let row = cmd.run(&store).unwrap();
    assert_eq!(row.name, "validator");
    assert_eq!(row.address, store.list()[0].address);
    let missing = ShowCosmosKeyCmd {
        name: "nobody".to_string(),
    };
    assert_eq!(err_of(missing.run(&store)), KeystoreError::NotFound);
}

#[test]
fn end_to_end_relayer_lifecycle() {
    let mut store = KeyStore::new();
    let km = store.add("relayer").unwrap();
    let listing = store.list();
    assert_eq!(listing.len(), 1);
    assert_eq!(listing[0].name, "relayer");
    assert_eq!(listing[0].address, derive_address(&km.public_key).unwrap());
    let payload = b"hello".to_vec();
    let sig = sign(&store, "relayer", &payload).unwrap();
    assert_eq!(sig.signer_name, "relayer");
    assert_eq!(sig.signature_bytes.len(), 64);
    assert!(verify_signature(&km.public_key, &payload, &sig.signature_bytes));
    assert!(!verify_signature(&km.public_key, &b"other".to_vec(), &sig.signature_bytes));
    store.delete("relayer").unwrap();
    assert!(store.list().is_empty());
}

#[test]
fn generated_keys_are_usable_and_distinct() {
    let a = KeyMaterial::generate("a").unwrap();
    let b = KeyMaterial::generate("b").unwrap();
    assert_eq!(a.private_key.len(), 32);
    assert_eq!(a.public_key.len(), 33);
    assert_ne!(a.private_key, b.private_key);
    assert!(a.derivation_path.is_none());
    let payload = b"msg".to_vec();
    let mut store = KeyStore::new();
    store.import("k", &a.private_key, None).unwrap();
    let sig = sign(&store, "k", &payload).unwrap();
    assert!(verify_signature(&a.public_key, &payload, &sig.signature_bytes));
}
