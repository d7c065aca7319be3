//! Key material: a named secp256k1 key pair with optional derivation
//! metadata, created either from fresh entropy or deterministically from a
//! seed and a hierarchical derivation path.

use vstd::prelude::*;
use vstd::utf8::encode_utf8;
use vstd::string::StrSliceExecFns;
use crate::crypto;
use crate::errors::KeystoreError;

verus! {

/// The mathematical content of a `KeyMaterial` value.
pub ghost struct KmView {
    pub name: Seq<char>,
    pub private_key: Seq<u8>,
    pub public_key: Seq<u8>,
    pub derivation_path: Option<Seq<char>>,
}

impl KmView {
    /// A well-formed key pair: a 32-byte secret scalar whose compressed
    /// public key is exactly what the curve derives from it.
    pub open spec fn wf(&self) -> bool {
        &&& self.private_key.len() == 32
        &&& self.public_key.len() == 33
        &&& crypto::pubkey_of(self.private_key) == Some(self.public_key)
    }
}

/// A private/public key pair plus derivation metadata. The public key is
/// never set independently: every constructor derives it from the private
/// key, so `wf` holds of every value the library hands out.
pub struct KeyMaterial {
    pub name: String,
    pub private_key: Vec<u8>,
    pub public_key: Vec<u8>,
    pub derivation_path: Option<String>,
}

impl View for KeyMaterial {
    type V = KmView;

    open spec fn view(&self) -> KmView {
        KmView {
            name: self.name@,
            private_key: self.private_key@,
            public_key: self.public_key@,
            derivation_path: match self.derivation_path {
                Some(p) => Some(p@),
                None => None,
            },
        }
    }
}

/// An ASCII decimal digit.
pub open spec fn is_digit(b: u8) -> bool {
    48 <= b <= 57
}

/// How many consecutive digits stand at position `j`.
pub open spec fn digit_run_len(s: Seq<u8>, j: int) -> nat
    decreases s.len() - j,
{
    if j < 0 || j >= s.len() || !is_digit(s[j]) {
        0
    } else {
        1 + digit_run_len(s, j + 1)
    }
}

/// The decimal value of the digits `s[j..e)`.
pub open spec fn digits_val(s: Seq<u8>, j: int, e: int) -> int
    decreases e - j,
{
    if j >= e {
        0
    } else {
        digits_val(s, j, e - 1) * 10 + (s[e - 1] - 48)
    }
}

/// Where the digit run starting at `j` ends, clamped to the byte count.
pub open spec fn comp_end(s: Seq<u8>, j: int) -> int {
    if j + digit_run_len(s, j) <= s.len() {
        j + digit_run_len(s, j)
    } else {
        s.len() as int
    }
}

/// The path components encoded from position `i` on: a possibly empty run
/// of `/<digits>` groups, each with an optional hardening mark `'`, each
/// index below 2^31; a hardened index carries 2^31 added in.
pub open spec fn parse_rest(s: Seq<u8>, i: int) -> Option<Seq<u32>>
    decreases s.len() - i,
{
    if i >= s.len() {
        Some(Seq::empty())
    } else if s[i] != 47 {
        None
    } else {
        let j = i + 1;
        let e = comp_end(s, j);
        if e == j || e - j > 10 {
            None
        } else {
            let v = digits_val(s, j, e);
            if v >= 0x8000_0000 {
                None
            } else if e < s.len() && s[e] == 39 {
                match parse_rest(s, e + 1) {
                    Some(rest) => Some(seq![(v + 0x8000_0000) as u32] + rest),
                    None => None,
                }
            } else {
                match parse_rest(s, e) {
                    Some(rest) => Some(seq![v as u32] + rest),
                    None => None,
                }
            }
        }
    }
}

/// The components of a full derivation path: the letter `m`, then the
/// component groups. `None` where the grammar is not met.
pub open spec fn parse_path(s: Seq<u8>) -> Option<Seq<u32>> {
    if s.len() == 0 || s[0] != 109 {
        None
    } else {
        parse_rest(s, 1)
    }
}

pub open spec fn pow10(n: nat) -> int
    decreases n,
{
    if n == 0 {
        1
    } else {
        10 * pow10((n - 1) as nat)
    }
}

proof fn lemma_digits_val_bound(s: Seq<u8>, j: int, e: int)
    requires
        j <= e,
        forall|k: int| j <= k < e ==> is_digit(#[trigger] s[k]),
    ensures
        0 <= digits_val(s, j, e) < pow10((e - j) as nat),
    decreases e - j,
{
    if j < e {
        lemma_digits_val_bound(s, j, e - 1);
    }
}

proof fn lemma_digit_run(s: Seq<u8>, j: int, i: int)
    requires
        0 <= j <= i <= s.len(),
        forall|k: int| j <= k < i ==> is_digit(#[trigger] s[k]),
        i == s.len() || !is_digit(s[i]),
    ensures
        j + digit_run_len(s, j) == i,
    decreases i - j,
{
    if j < i {
        lemma_digit_run(s, j + 1, i);
    }
}

/// Parses a derivation path such as `m/44'/118'/0'/0/0` into its indices;
/// a trailing `'` marks a hardened index and adds 2^31 to it.
pub fn parse_derivation_path(path: &str) -> (r: Result<Vec<u32>, KeystoreError>)
    ensures
        r matches Ok(v) ==> parse_path(encode_utf8(path@)) == Some(v@),
        r is Ok <==> parse_path(encode_utf8(path@)) is Some,
        r matches Err(e) ==> e == KeystoreError::InvalidDerivationPath,
{
    let bytes: Vec<u8> = path.as_bytes_vec();
    let ghost s: Seq<u8> = bytes@;
    let n: usize = bytes.len();
    if n == 0 || bytes[0] != 109 {
        return Err(KeystoreError::InvalidDerivationPath);
    }
    let mut comps: Vec<u32> = Vec::new();
    let mut i: usize = 1;
    proof {
        match parse_rest(s, 1) {
            Some(rest) => {
                assert(Seq::<u32>::empty() + rest =~= rest);
            },
            None => {},
        }
    }
    loop
        invariant
            1 <= i <= n,
            n == s.len(),
            bytes@ == s,
            s == encode_utf8(path@),
            0 < s.len() && s[0] == 109,
            comps@.len() <= i,
            (match parse_rest(s, i as int) {
                Some(rest) => parse_rest(s, 1) == Some(comps@ + rest),
                None => parse_rest(s, 1) is None,
            }),
        decreases n - i,
    {
        if i == n {
            proof {
                assert(comps@ + Seq::<u32>::empty() =~= comps@);
            }
            return Ok(comps);
        }
        if bytes[i] != 47 {
            return Err(KeystoreError::InvalidDerivationPath);
        }
        let j: usize = i + 1;
        let mut e: usize = j;
        while e < n && bytes[e] >= 48 && bytes[e] <= 57
            invariant
                j <= e <= n,
                n == s.len(),
                bytes@ == s,
                forall|k: int| j <= k < e ==> is_digit(#[trigger] s[k]),
            decreases n - e,
        {
            e = e + 1;
        }
        proof {
            lemma_digit_run(s, j as int, e as int);
            assert(comp_end(s, j as int) == e as int);
        }
        if e == j || e - j > 10 {
            return Err(KeystoreError::InvalidDerivationPath);
        }
        let mut val: u64 = 0;
        let mut k: usize = j;
        proof {
            reveal_with_fuel(pow10, 11);
        }
        while k < e
            invariant
                j <= k <= e,
                e - j <= 10,
                n == s.len(),
                e <= n,
                bytes@ == s,
                forall|t: int| j <= t < e ==> is_digit(#[trigger] s[t]),
                val == digits_val(s, j as int, k as int),
                0 <= val < pow10((k - j) as nat),
            decreases e - k,
        {
            proof {
                reveal_with_fuel(pow10, 11);
                lemma_digits_val_bound(s, j as int, k as int);
                assert(pow10((k - j) as nat) <= pow10(9)) by {
                    lemma_pow10_le((k - j) as nat, 9);
                }
            }
            val = val * 10 + ((bytes[k] - 48) as u64);
            k = k + 1;
        }
        if val >= 0x8000_0000 {
            return Err(KeystoreError::InvalidDerivationPath);
        }
        let hardened: bool = e < n && bytes[e] == 39;
        let comp: u32 = if hardened {
            (val + 0x8000_0000) as u32
        } else {
            val as u32
        };
        let next: usize = if hardened {
            e + 1
        } else {
            e
        };
        let ghost old_comps = comps@;
        let ghost old_i = i as int;
        comps.push(comp);
        i = next;
        proof {
            assert(comp_end(s, j as int) == e as int);
            match parse_rest(s, i as int) {
                Some(rest) => {
                    assert(parse_rest(s, old_i) == Some(seq![comp] + rest));
                    assert(old_comps + (seq![comp] + rest) =~= comps@ + rest);
                },
                None => {
                    assert(parse_rest(s, old_i) is None);
                },
            }
        }
    }
}

proof fn lemma_pow10_le(a: nat, b: nat)
    requires
        a <= b,
    ensures
        pow10(a) <= pow10(b),
    decreases b,
{
    if a < b {
        lemma_pow10_le(a, (b - 1) as nat);
        lemma_pow10_pos((b - 1) as nat);
    }
}

proof fn lemma_pow10_pos(n: nat)
    ensures
        pow10(n) >= 1,
    decreases n,
{
    if n > 0 {
        lemma_pow10_pos((n - 1) as nat);
    }
}

/// The four big-endian bytes of a derivation index.
pub open spec fn be32(v: u32) -> Seq<u8> {
    seq![
        ((v / 0x1000000) % 256) as u8,
        ((v / 0x10000) % 256) as u8,
        ((v / 0x100) % 256) as u8,
        (v % 256) as u8,
    ]
}

/// The derived secret scalar: the seed's digest, folded once more with
/// each derivation index in turn.
pub open spec fn hd_key(seed: Seq<u8>, comps: Seq<u32>) -> Seq<u8>
    decreases comps.len(),
{
    if comps.len() == 0 {
        crypto::sha256_of(seed)
    } else {
        crypto::sha256_of(hd_key(seed, comps.drop_last()) + be32(comps.last()))
    }
}

/// A seed is acceptable at 16 to 64 bytes (128-bit strength up to the
/// 64-byte output of common mnemonic schemes).
pub open spec fn seed_len_ok(n: nat) -> bool {
    16 <= n <= 64
}

/// What `KeyMaterial::from_seed` returns, as a function of its inputs.
pub open spec fn from_seed_result(name: Seq<char>, seed: Seq<u8>, path: Seq<char>) -> Result<
    KmView,
    KeystoreError,
> {
    if !seed_len_ok(seed.len()) {
        Err(KeystoreError::InvalidSeed)
    } else {
        match parse_path(encode_utf8(path)) {
            None => Err(KeystoreError::InvalidDerivationPath),
            Some(comps) => {
                let k = hd_key(seed, comps);
                match crypto::pubkey_of(k) {
                    None => Err(KeystoreError::InvalidSeed),
                    Some(pk) => Ok(
                        KmView {
                            name: name,
                            private_key: k,
                            public_key: pk,
                            derivation_path: Some(path),
                        },
                    ),
                }
            },
        }
    }
}

/// What `KeyMaterial::from_raw` returns, as a function of its inputs.
pub open spec fn from_raw_result(name: Seq<char>, raw: Seq<u8>) -> Result<KmView, KeystoreError> {
    if raw.len() != 32 {
        Err(KeystoreError::InvalidSeed)
    } else {
        match crypto::pubkey_of(raw) {
            None => Err(KeystoreError::InvalidSeed),
            Some(pk) => Ok(
                KmView { name: name, private_key: raw, public_key: pk, derivation_path: None },
            ),
        }
    }
}

/// Appends `b` to a copy of `a`.
pub fn concat_bytes(a: &Vec<u8>, b: &Vec<u8>) -> (r: Vec<u8>)
    ensures
        r@ == a@ + b@,
{
    let mut r: Vec<u8> = Vec::new();
    let mut i: usize = 0;
    while i < a.len()
        invariant
            i <= a.len(),
            r@ == a@.subrange(0, i as int),
        decreases a.len() - i,
    {
        r.push(a[i]);
        i = i + 1;
    }
    proof {
        assert(r@ =~= a@);
    }
    let mut k: usize = 0;
    while k < b.len()
        invariant
            k <= b.len(),
            r@ == a@ + b@.subrange(0, k as int),
        decreases b.len() - k,
    {
        r.push(b[k]);
        proof {
            assert(a@ + b@.subrange(0, k + 1 as int) =~= (a@ + b@.subrange(0, k as int)).push(
                b@[k as int],
            ));
        }
        k = k + 1;
    }
    proof {
        assert(b@.subrange(0, b@.len() as int) =~= b@);
    }
    r
}

/// Copies a byte vector.
pub fn copy_bytes(a: &Vec<u8>) -> (r: Vec<u8>)
    ensures
        r@ == a@,
{
    let mut r: Vec<u8> = Vec::new();
    let mut i: usize = 0;
    while i < a.len()
        invariant
            i <= a.len(),
            r@ == a@.subrange(0, i as int),
        decreases a.len() - i,
    {
        r.push(a[i]);
        i = i + 1;
    }
    proof {
        assert(r@ =~= a@);
    }
    r
}

/// Overwrites every byte with zero, so that dropped key buffers do not
/// keep secret bytes alive.
pub fn zero_bytes(v: &mut Vec<u8>)
    ensures
        final(v)@.len() == old(v)@.len(),
        forall|i: int| 0 <= i < final(v)@.len() ==> final(v)@[i] == 0,
{
    let mut i: usize = 0;
    while i < v.len()
        invariant
            i <= v@.len(),
            v@.len() == old(v)@.len(),
            forall|t: int| 0 <= t < i ==> v@[t] == 0,
        decreases v@.len() - i,
    {
        v[i] = 0;
        i = i + 1;
    }
}

impl KeyMaterial {
    /// A fresh key pair from the operating system's entropy source.
    /// `Err` carries only `Entropy`: the source failed, or it repeatedly
    /// produced bytes that are not a usable scalar.
    pub fn generate(name: &str) -> (r: Result<KeyMaterial, KeystoreError>)
        ensures
            r matches Ok(km) ==> km@.wf() && km@.name == name@ && km@.derivation_path is None,
            r matches Err(e) ==> e == KeystoreError::Entropy,
    {
        let mut attempts: usize = 0;
        while attempts < 8
            invariant
                attempts <= 8,
            decreases 8 - attempts,
        {
            let sk = match crypto::random_bytes(32) {
                Some(v) => v,
                None => {
                    return Err(KeystoreError::Entropy);
                },
            };
            match crypto::secp256k1_pubkey(&sk) {
                Some(pk) => {
                    return Ok(
                        KeyMaterial {
                            name: name.to_owned(),
                            private_key: sk,
                            public_key: pk,
                            derivation_path: None,
                        },
                    );
                },
                None => {
                    attempts = attempts + 1;
                },
            }
        }
        Err(KeystoreError::Entropy)
    }

    /// Deterministic derivation: the same seed and path always give the
    /// same key pair. The result is exactly `from_seed_result`.
    pub fn from_seed(name: &str, seed: &Vec<u8>, path: &str) -> (r: Result<
        KeyMaterial,
        KeystoreError,
    >)
        ensures
            r matches Ok(km) ==> km@.wf() && from_seed_result(name@, seed@, path@) == Ok::<
                KmView,
                KeystoreError,
            >(km@),
            r matches Err(e) ==> from_seed_result(name@, seed@, path@) == Err::<
                KmView,
                KeystoreError,
            >(e),
    {
        if seed.len() < 16 || seed.len() > 64 {
            return Err(KeystoreError::InvalidSeed);
        }
        let comps = match parse_derivation_path(path) {
            Ok(c) => c,
            Err(e) => {
                return Err(e);
            },
        };
        let mut key = crypto::sha256(seed);
        let mut i: usize = 0;
        while i < comps.len()
            invariant
                i <= comps@.len(),
                key@.len() == 32,
                key@ == hd_key(seed@, comps@.subrange(0, i as int)),
            decreases comps@.len() - i,
        {
            let c: u32 = comps[i];
            let mut step: Vec<u8> = Vec::new();
            step.push(((c / 0x1000000) % 256) as u8);
            step.push(((c / 0x10000) % 256) as u8);
            step.push(((c / 0x100) % 256) as u8);
            step.push((c % 256) as u8);
            proof {
                assert(step@ =~= be32(c));
            }
            let joined = concat_bytes(&key, &step);
            key = crypto::sha256(&joined);
            proof {
                let taken = comps@.subrange(0, i + 1 as int);
                assert(taken.drop_last() =~= comps@.subrange(0, i as int));
                assert(taken.last() == c);
            }
            i = i + 1;
        }
        proof {
            assert(comps@.subrange(0, comps@.len() as int) =~= comps@);
        }
        match crypto::secp256k1_pubkey(&key) {
            None => Err(KeystoreError::InvalidSeed),
            Some(pk) => Ok(
                KeyMaterial {
                    name: name.to_owned(),
                    private_key: key,
                    public_key: pk,
                    derivation_path: Some(path.to_owned()),
                },
            ),
        }
    }

    /// An externally supplied raw 32-byte private key, with no derivation
    /// metadata. `Err(InvalidSeed)` exactly where the bytes are not 32
    /// long or are not a usable scalar.
    pub fn from_raw(name: &str, raw: &Vec<u8>) -> (r: Result<KeyMaterial, KeystoreError>)
        ensures
            r matches Ok(km) ==> km@.wf() && from_raw_result(name@, raw@) == Ok::<
                KmView,
                KeystoreError,
            >(km@),
            r matches Err(e) ==> from_raw_result(name@, raw@) == Err::<KmView, KeystoreError>(e),
    {
        if raw.len() != 32 {
            return Err(KeystoreError::InvalidSeed);
        }
        match crypto::secp256k1_pubkey(raw) {
            None => Err(KeystoreError::InvalidSeed),
            Some(pk) => Ok(
                KeyMaterial {
                    name: name.to_owned(),
                    private_key: copy_bytes(raw),
                    public_key: pk,
                    derivation_path: None,
                },
            ),
        }
    }

    /// The cached public key: always exactly the curve's derivation of the
    /// private key, per `wf`.
    pub fn public_key(&self) -> (r: &Vec<u8>)
        ensures
            r@ == self@.public_key,
    {
        &self.public_key
    }

    /// A field-for-field copy.
    pub fn duplicate(&self) -> (r: KeyMaterial)
        ensures
            r@ == self@,
    {
        let path: Option<String> = match &self.derivation_path {
            Some(p) => Some(p.clone()),
            None => None,
        };
        KeyMaterial {
            name: self.name.clone(),
            private_key: copy_bytes(&self.private_key),
            public_key: copy_bytes(&self.public_key),
            derivation_path: path,
        }
    }
}

/// The derivation in `from_seed` is a function of seed and path alone:
/// two runs over equal inputs return equal key material — equal private
/// and public key bytes in particular.
pub proof fn lemma_from_seed_deterministic(
    seed: Seq<u8>,
    path: Seq<char>,
    name1: Seq<char>,
    name2: Seq<char>,
    r1: Result<KmView, KeystoreError>,
    r2: Result<KmView, KeystoreError>,
)
    requires
        r1 == from_seed_result(name1, seed, path),
        r2 == from_seed_result(name2, seed, path),
    ensures
        r1 is Ok <==> r2 is Ok,
        r1 matches Ok(a) ==> r2 matches Ok(b) && a.private_key == b.private_key && a.public_key
            == b.public_key && a.derivation_path == b.derivation_path,
{
}

} // verus!
