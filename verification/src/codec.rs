//! The persisted image of a store: a self-contained byte encoding that
//! records name, key pair and derivation metadata of every entry, so a
//! store can be reconstructed losslessly on reload. Decoding revalidates
//! everything the store's invariant promises.
//!
//! The image holds the private-key bytes unencrypted: the guarantee this
//! design provides is restrictive file handling by the process that owns
//! the store, not encryption at rest, and callers must treat the image
//! accordingly.

use vstd::prelude::*;
use vstd::string::StrSliceExecFns;
use vstd::utf8::encode_utf8;
use vstd::utf8::decode_utf8;
use crate::crypto;
use crate::errors::KeystoreError;
use crate::material::KeyMaterial;
use crate::material::KmView;
use crate::store;
use crate::store::KeyStore;
use crate::store::store_wf;
use crate::wire;
use crate::wire::le_val;
use crate::wire::pow256;
use crate::wire::u64_le;

verus! {

/// The encoded derivation-path part: a presence tag, then the path bytes
/// behind a fixed-width length.
pub open spec fn enc_path(p: Option<Seq<char>>) -> Seq<u8> {
    match p {
        None => seq![0u8],
        Some(path) => {
            let pb = encode_utf8(path);
            seq![1u8] + u64_le(pb.len() as u64) + pb
        },
    }
}

/// One encoded entry: length-prefixed name bytes, the fixed-width key
/// pair, the derivation-path part.
pub open spec fn enc_km(e: KmView) -> Seq<u8> {
    let nb = encode_utf8(e.name);
    u64_le(nb.len() as u64) + nb + e.private_key + e.public_key + enc_path(e.derivation_path)
}

/// The encoded entries, in order.
pub open spec fn enc_entries(s: Seq<KmView>) -> Seq<u8>
    decreases s.len(),
{
    if s.len() == 0 {
        Seq::empty()
    } else {
        enc_km(s[0]) + enc_entries(s.drop_first())
    }
}

/// The encoded store: an entry count, then the entries.
pub open spec fn enc_store(s: Seq<KmView>) -> Seq<u8> {
    u64_le(s.len() as u64) + enc_entries(s)
}

/// Whether an entry's variable-length parts fit their length fields.
/// Every entry held in memory does.
pub open spec fn km_encodable(e: KmView) -> bool {
    &&& encode_utf8(e.name).len() < pow256(8)
    &&& (e.derivation_path matches Some(p) ==> encode_utf8(p).len() < pow256(8))
}

/// Whether a store fits the encoding's fixed-width fields.
pub open spec fn store_encodable(s: Seq<KmView>) -> bool {
    s.len() < pow256(8) && forall|i: int| 0 <= i < s.len() ==> km_encodable(#[trigger] s[i])
}

proof fn lemma_enc_entries_push(s: Seq<KmView>, e: KmView)
    ensures
        enc_entries(s.push(e)) == enc_entries(s) + enc_km(e),
    decreases s.len(),
{
    if s.len() == 0 {
        assert(s.push(e)[0] == e);
        assert(s.push(e).drop_first() =~= Seq::<KmView>::empty());
        assert(enc_entries(s.push(e)) == enc_km(e) + enc_entries(Seq::<KmView>::empty()));
        assert(enc_entries(s.push(e)) =~= enc_entries(s) + enc_km(e));
    } else {
        assert(s.push(e)[0] == s[0]);
        assert(s.push(e).drop_first() =~= s.drop_first().push(e));
        lemma_enc_entries_push(s.drop_first(), e);
        assert(enc_entries(s.push(e)) == enc_km(s[0]) + (enc_entries(s.drop_first()) + enc_km(
            e,
        )));
        assert(enc_entries(s.push(e)) =~= enc_entries(s) + enc_km(e));
    }
}

/// Copies `n` bytes starting at `i`.
fn read_bytes(b: &Vec<u8>, i: usize, n: usize) -> (r: Vec<u8>)
    requires
        i + n <= b@.len(),
    ensures
        r@ == b@.subrange(i as int, i + n),
{
    let m: usize = b.len();
    let mut r: Vec<u8> = Vec::new();
    let mut k: usize = 0;
    while k < n
        invariant
            k <= n,
            m == b@.len(),
            i + n <= m,
            r@ == b@.subrange(i as int, i + k),
        decreases n - k,
    {
        let ghost before = r@;
        r.push(b[i + k]);
        proof {
            assert(b@.subrange(i as int, i + k + 1) =~= before.push(b@[i + k]));
        }
        k = k + 1;
    }
    r
}

/// Encodes a store; the result is exactly `enc_store` of its content.
pub fn encode_store(s: &KeyStore) -> (r: Vec<u8>)
    requires
        s.wf(),
    ensures
        r@ == enc_store(s@),
        store_encodable(s@),
{
    proof {
        reveal_with_fuel(pow256, 9);
    }
    let n: usize = s.len();
    let mut out: Vec<u8> = Vec::new();
    wire::push_u64_le(&mut out, n as u64);
    let mut i: usize = 0;
    while i < n
        invariant
            s.wf(),
            n == s@.len(),
            i <= n,
            n < pow256(8),
            out@ == u64_le(n as u64) + enc_entries(s@.subrange(0, i as int)),
            forall|t: int| 0 <= t < i ==> km_encodable(#[trigger] s@[t]),
        decreases n - i,
    {
        proof {
            reveal_with_fuel(pow256, 9);
        }
        let ghost out_before = out@;
        let km: &KeyMaterial = s.entry_at(i);
        let nb: Vec<u8> = km.name.as_str().as_bytes_vec();
        wire::push_u64_le(&mut out, nb.len() as u64);
        wire::append_bytes(&mut out, &nb);
        wire::append_bytes(&mut out, &km.private_key);
        wire::append_bytes(&mut out, &km.public_key);
        match &km.derivation_path {
            None => {
                out.push(0u8);
                proof {
                    assert(enc_path(s@[i as int].derivation_path) =~= seq![0u8]);
                }
            },
            Some(p) => {
                out.push(1u8);
                let pb: Vec<u8> = p.as_str().as_bytes_vec();
                wire::push_u64_le(&mut out, pb.len() as u64);
                wire::append_bytes(&mut out, &pb);
                proof {
                    assert(enc_path(s@[i as int].derivation_path) =~= seq![1u8] + u64_le(
                        pb@.len() as u64,
                    ) + pb@);
                }
            },
        }
        proof {
            assert(out@ =~= out_before + enc_km(s@[i as int]));
            lemma_enc_entries_push(s@.subrange(0, i as int), s@[i as int]);
            assert(s@.subrange(0, i + 1) =~= s@.subrange(0, i as int).push(s@[i as int]));
            assert(out@ =~= u64_le(n as u64) + enc_entries(s@.subrange(0, i + 1)));
        }
        i = i + 1;
    }
    proof {
        assert(s@.subrange(0, n as int) =~= s@);
    }
    out
}

/// Decodes a persisted image. On `Ok` the store is well formed and
/// re-encodes to exactly the given bytes; every malformed image — bad
/// framing, bad UTF-8, a public key that is not the private key's, a
/// repeated name, trailing bytes — is `Persistence`; and on the image of
/// any well-formed store, decoding succeeds.
#[verifier::rlimit(100)]
pub fn decode_store(bytes: &Vec<u8>) -> (r: Result<KeyStore, KeystoreError>)
    ensures
        r matches Ok(st) ==> st.wf() && store_encodable(st@) && enc_store(st@) == bytes@,
        r matches Err(e) ==> e == KeystoreError::Persistence,
        is_image(bytes@) ==> r is Ok,
{
    proof {
        reveal_with_fuel(pow256, 9);
    }
    let ghost h: bool = is_image(bytes@);
    let ghost w: Seq<KmView> = choose|s: Seq<KmView>|
        store_wf(s) && store_encodable(s) && enc_store(s) == bytes@;
    proof {
        if h {
            wire::lemma_u64_in_range(w.len() as u64);
        }
    }
    let total: usize = bytes.len();
    if total < 8 {
        return Err(KeystoreError::Persistence);
    }
    let count: u64 = wire::read_u64_le(bytes, 0);
    proof {
        if h {
            assert(bytes@.subrange(0, 8) =~= u64_le(w.len() as u64));
            assert(count == w.len());
        }
    }
    let mut entries: Vec<KeyMaterial> = Vec::new();
    let mut pos: usize = 8;
    let mut done: u64 = 0;
    while done < count
        invariant
            8 <= pos <= total,
            total == bytes@.len(),
            done <= count,
            entries@.len() == done,
            count == le_val(bytes@.subrange(0, 8)),
            store_wf(views_of(entries@)),
            forall|t: int| 0 <= t < entries@.len() ==> km_encodable(
                #[trigger] views_of(entries@)[t],
            ),
            enc_entries(views_of(entries@)) == bytes@.subrange(8, pos as int),
            h == is_image(bytes@),
            h ==> store_wf(w) && store_encodable(w) && enc_store(w) == bytes@,
            h ==> count == w.len() && views_of(entries@) == w.take(done as int),
        decreases count - done,
    {
        proof {
            reveal_with_fuel(pow256, 9);
            if h {
                lemma_entry_alignment(bytes@, w, done as int);
                assert(pos as int == entry_off(w, done as int));
                assert(w[done as int].wf());
                vstd::utf8::encode_utf8_valid_utf8(w[done as int].name);
                vstd::utf8::encode_utf8_decode_utf8(w[done as int].name);
                match w[done as int].derivation_path {
                    Some(pp) => {
                        vstd::utf8::encode_utf8_valid_utf8(pp);
                        vstd::utf8::encode_utf8_decode_utf8(pp);
                    },
                    None => {},
                }
            }
        }
        let ghost entry_start = pos as int;
        if total - pos < 8 {
            return Err(KeystoreError::Persistence);
        }
        let nl64: u64 = wire::read_u64_le(bytes, pos);
        if nl64 > (total - pos - 8) as u64 {
            return Err(KeystoreError::Persistence);
        }
        let nl: usize = nl64 as usize;
        let name_bytes: Vec<u8> = read_bytes(bytes, pos + 8, nl);
        let name: String = match crypto::string_from_utf8(name_bytes) {
            Some(s) => s,
            None => {
                return Err(KeystoreError::Persistence);
            },
        };
        proof {
            if h {
                vstd::utf8::encode_utf8_decode_utf8(name@);
                assert(name@ == w[done as int].name);
            }
        }
        let mut p: usize = pos + 8 + nl;
        if total - p < 66 {
            return Err(KeystoreError::Persistence);
        }
        let private_key: Vec<u8> = read_bytes(bytes, p, 32);
        let public_key: Vec<u8> = read_bytes(bytes, p + 32, 33);
        let tag: u8 = bytes[p + 65];
        let ghost tag_at = p + 65;
        p = p + 66;
        let path: Option<String> = if tag == 0 {
            None
        } else if tag == 1 {
            if total - p < 8 {
                return Err(KeystoreError::Persistence);
            }
            let pl64: u64 = wire::read_u64_le(bytes, p);
            if pl64 > (total - p - 8) as u64 {
                return Err(KeystoreError::Persistence);
            }
            let pl: usize = pl64 as usize;
            let path_bytes: Vec<u8> = read_bytes(bytes, p + 8, pl);
            let ps: String = match crypto::string_from_utf8(path_bytes) {
                Some(s) => s,
                None => {
                    return Err(KeystoreError::Persistence);
                },
            };
            proof {
                if h {
                    vstd::utf8::encode_utf8_decode_utf8(ps@);
                }
            }
            p = p + 8 + pl;
            Some(ps)
        } else {
            return Err(KeystoreError::Persistence);
        };
        match crypto::secp256k1_pubkey(&private_key) {
            Some(pk) => {
                if !wire::eq_bytes(&pk, &public_key) {
                    return Err(KeystoreError::Persistence);
                }
            },
            None => {
                return Err(KeystoreError::Persistence);
            },
        }
        let mut t: usize = 0;
        while t < entries.len()
            invariant
                t <= entries@.len(),
                forall|u: int| 0 <= u < t ==> (#[trigger] entries@[u])@.name != name@,
                h == is_image(bytes@),
                h ==> store_wf(w) && done < w.len() && entries@.len() == done && views_of(
                    entries@,
                ) == w.take(done as int) && name@ == w[done as int].name,
            decreases entries@.len() - t,
        {
            if entries[t].name == name {
                proof {
                    if h {
                        assert(views_of(entries@)[t as int].name == entries@[t as int]@.name);
                        assert(w.take(done as int)[t as int] == w[t as int]);
                        assert(w[t as int].name != w[done as int].name);
                    }
                }
                return Err(KeystoreError::Persistence);
            }
            t = t + 1;
        }
        let km = KeyMaterial { name, private_key, public_key, derivation_path: path };
        let ghost old_views = views_of(entries@);
        entries.push(km);
        proof {
            if h {
                assert(entries@.last()@ == w[done as int]);
                assert(views_of(entries@) =~= w.take(done as int + 1));
            }
        }
        proof {
            reveal_with_fuel(pow256, 9);
            assert(views_of(entries@) =~= old_views.push(entries@.last()@));
            let v = entries@.last()@;
            assert(!store::has_name(old_views, v.name));
            store::lemma_push_keeps_wf(old_views, v);
            wire::lemma_le_encode(bytes@.subrange(entry_start, entry_start + 8));
            if v.derivation_path is Some {
                wire::lemma_le_encode(
                    bytes@.subrange(tag_at + 1, tag_at + 9),
                );
            }
            assert(enc_km(v) =~= bytes@.subrange(entry_start, p as int));
            lemma_enc_entries_push(old_views, v);
            assert(enc_entries(views_of(entries@)) =~= bytes@.subrange(8, p as int));
        }
        pos = p;
        done = done + 1;
    }
    if pos != total {
        proof {
            if h {
                wire::lemma_u64_in_range(w.len() as u64);
                assert(w.take(w.len() as int) =~= w);
                assert(enc_entries(views_of(entries@)) == enc_entries(w));
                assert(total == 8 + enc_entries(w).len());
            }
        }
        return Err(KeystoreError::Persistence);
    }
    let ghost final_views = views_of(entries@);
    proof {
        assert(views_of(entries@) =~= Seq::new(entries@.len(), |i: int| entries@[i]@));
    }
    let st = KeyStore::from_entries(entries);
    proof {
        assert(st@ =~= final_views);
        wire::lemma_le_encode(bytes@.subrange(0, 8));
        assert(st@.len() == count);
        assert(enc_store(st@) =~= bytes@);
    }
    Ok(st)
}

/// The views of a vector of entries.
pub open spec fn views_of(entries: Seq<KeyMaterial>) -> Seq<KmView> {
    Seq::new(entries.len(), |i: int| entries[i]@)
}

/// Whether these bytes are the image of some well-formed store.
pub open spec fn is_image(b: Seq<u8>) -> bool {
    exists|s: Seq<KmView>| store_wf(s) && store_encodable(s) && enc_store(s) == b
}

/// The length in bytes of one entry's name, in its encoding.
pub open spec fn name_len(w: Seq<KmView>, i: int) -> int {
    encode_utf8(w[i].name).len() as int
}

/// Where entry `done` starts in the encoded image of `w`.
pub open spec fn entry_off(w: Seq<KmView>, done: int) -> int {
    8 + enc_entries(w.take(done)).len() as int
}

proof fn lemma_enc_entries_split(s: Seq<KmView>, k: int)
    requires
        0 <= k <= s.len(),
    ensures
        enc_entries(s) == enc_entries(s.take(k)) + enc_entries(s.skip(k)),
    decreases k,
{
    if k == 0 {
        assert(s.take(0) =~= Seq::<KmView>::empty());
        assert(s.skip(0) =~= s);
        assert(enc_entries(s) =~= enc_entries(s.take(0)) + enc_entries(s.skip(0)));
    } else {
        let d = s.drop_first();
        lemma_enc_entries_split(d, k - 1);
        assert(s.take(k)[0] == s[0]);
        assert(s.take(k).drop_first() =~= d.take(k - 1));
        assert(s.skip(k) =~= d.skip(k - 1));
        assert(enc_entries(s.take(k)) == enc_km(s[0]) + enc_entries(d.take(k - 1)));
        assert(enc_entries(s) =~= enc_entries(s.take(k)) + enc_entries(s.skip(k)));
    }
}

proof fn lemma_enc_km_len(e: KmView)
    requires
        e.wf(),
    ensures
        enc_km(e).len() == 74 + encode_utf8(e.name).len() + (match e.derivation_path {
            None => 0,
            Some(p) => 8 + encode_utf8(p).len(),
        }),
{
    reveal_with_fuel(pow256, 9);
    wire::lemma_u64_in_range(encode_utf8(e.name).len() as u64);
    match e.derivation_path {
        None => {},
        Some(p) => {
            wire::lemma_u64_in_range(encode_utf8(p).len() as u64);
        },
    }
}

/// How the bytes of a valid image decompose at entry `done`: every field
/// of that entry stands at its computed offset, and the framing checks a
/// decoder makes there all succeed.
#[verifier::rlimit(100)]
proof fn lemma_entry_alignment(b: Seq<u8>, w: Seq<KmView>, done: int)
    requires
        store_wf(w),
        store_encodable(w),
        b == enc_store(w),
        0 <= done < w.len(),
    ensures
        entry_off(w, done) + 8 + name_len(w, done) + 66 <= b.len(),
        b.subrange(entry_off(w, done), entry_off(w, done) + 8) == u64_le(
            name_len(w, done) as u64,
        ),
        le_val(b.subrange(entry_off(w, done), entry_off(w, done) + 8)) == name_len(w, done),
        b.subrange(entry_off(w, done) + 8, entry_off(w, done) + 8 + name_len(w, done))
            == encode_utf8(w[done].name),
        b.subrange(
            entry_off(w, done) + 8 + name_len(w, done),
            entry_off(w, done) + 8 + name_len(w, done) + 32,
        ) == w[done].private_key,
        b.subrange(
            entry_off(w, done) + 8 + name_len(w, done) + 32,
            entry_off(w, done) + 8 + name_len(w, done) + 65,
        ) == w[done].public_key,
        b[entry_off(w, done) + 8 + name_len(w, done) + 65] == enc_path(
            w[done].derivation_path,
        )[0],
        enc_path(w[done].derivation_path)[0] == (if w[done].derivation_path is Some {
            1u8
        } else {
            0u8
        }),
        w[done].derivation_path matches Some(p) ==> {
            let o = entry_off(w, done) + 8 + name_len(w, done) + 66;
            &&& o + 8 + encode_utf8(p).len() <= b.len()
            &&& b.subrange(o, o + 8) == u64_le(encode_utf8(p).len() as u64)
            &&& le_val(b.subrange(o, o + 8)) == encode_utf8(p).len()
            &&& b.subrange(o + 8, o + 8 + encode_utf8(p).len()) == encode_utf8(p)
        },
        entry_off(w, done + 1) == entry_off(w, done) + enc_km(w[done]).len(),
        entry_off(w, done + 1) <= b.len(),
        entry_off(w, done + 1) == entry_off(w, done) + 8 + name_len(w, done) + 66 + (
        match w[done].derivation_path {
            None => 0,
            Some(p) => 8 + encode_utf8(p).len(),
        }),
{
    reveal_with_fuel(pow256, 9);
    let off = entry_off(w, done);
    let e = w[done];
    let na = encode_utf8(e.name);
    lemma_enc_entries_split(w, done);
    lemma_enc_km_len(e);
    wire::lemma_u64_in_range(na.len() as u64);
    wire::lemma_u64_in_range(w.len() as u64);
    let skip = w.skip(done);
    assert(skip[0] == e);
    assert(skip.drop_first() =~= w.skip(done + 1));
    assert(enc_entries(skip) == enc_km(e) + enc_entries(w.skip(done + 1)));
    assert(b.len() == 8 + enc_entries(w.take(done)).len() + enc_km(e).len() + enc_entries(
        w.skip(done + 1),
    ).len());
    assert(b.subrange(off, off + 8) =~= u64_le(na.len() as u64));
    assert(b.subrange(off + 8, off + 8 + na.len()) =~= na);
    assert(b.subrange(off + 8 + na.len(), off + 8 + na.len() + 32) =~= e.private_key);
    assert(b.subrange(off + 8 + na.len() + 32, off + 8 + na.len() + 65) =~= e.public_key);
    assert(b[off + 8 + na.len() + 65] == enc_path(e.derivation_path)[0]);
    match e.derivation_path {
        None => {},
        Some(p) => {
            let pb = encode_utf8(p);
            wire::lemma_u64_in_range(pb.len() as u64);
            let o = off + 8 + na.len() + 66;
            assert(b.subrange(o, o + 8) =~= u64_le(pb.len() as u64));
            assert(b.subrange(o + 8, o + 8 + pb.len()) =~= pb);
        },
    }
    lemma_enc_entries_split(w, done + 1);
    assert(w.take(done + 1).drop_last() =~= w.take(done));
    lemma_enc_entries_push(w.take(done), e);
    assert(w.take(done + 1) =~= w.take(done).push(e));
}

#[verifier::rlimit(100)]
proof fn lemma_enc_km_prefix_injective(a: KmView, b: KmView, r1: Seq<u8>, r2: Seq<u8>)
    requires
        a.wf(),
        b.wf(),
        km_encodable(a),
        km_encodable(b),
        enc_km(a) + r1 == enc_km(b) + r2,
    ensures
        a == b,
        r1 == r2,
{
    reveal_with_fuel(pow256, 9);
    let na = encode_utf8(a.name);
    let nb = encode_utf8(b.name);
    let c = enc_km(a) + r1;
    wire::lemma_u64_in_range(na.len() as u64);
    wire::lemma_u64_in_range(nb.len() as u64);
    assert(c.subrange(0, 8) =~= u64_le(na.len() as u64));
    assert(c.subrange(0, 8) =~= u64_le(nb.len() as u64));
    wire::lemma_le_injective(na.len() as int, nb.len() as int, 8);
    let l = na.len() as int;
    assert(c.subrange(8, 8 + l) =~= na);
    assert(c.subrange(8, 8 + l) =~= nb);
    vstd::utf8::encode_utf8_decode_utf8(a.name);
    vstd::utf8::encode_utf8_decode_utf8(b.name);
    assert(a.name == decode_utf8(na) && b.name == decode_utf8(nb));
    let o = 8 + l;
    assert(c.subrange(o, o + 32) =~= a.private_key);
    assert(c.subrange(o, o + 32) =~= b.private_key);
    assert(c.subrange(o + 32, o + 65) =~= a.public_key);
    assert(c.subrange(o + 32, o + 65) =~= b.public_key);
    assert(c[o + 65] == enc_path(a.derivation_path)[0]);
    assert(c[o + 65] == enc_path(b.derivation_path)[0]);
    match (a.derivation_path, b.derivation_path) {
        (None, None) => {
            assert(a == b);
        },
        (None, Some(_)) => {
            assert(false);
        },
        (Some(_), None) => {
            assert(false);
        },
        (Some(pa), Some(pb)) => {
            let pba = encode_utf8(pa);
            let pbb = encode_utf8(pb);
            wire::lemma_u64_in_range(pba.len() as u64);
            wire::lemma_u64_in_range(pbb.len() as u64);
            assert(c.subrange(o + 66, o + 74) =~= u64_le(pba.len() as u64));
            assert(c.subrange(o + 66, o + 74) =~= u64_le(pbb.len() as u64));
            wire::lemma_le_injective(pba.len() as int, pbb.len() as int, 8);
            let pl = pba.len() as int;
            assert(c.subrange(o + 74, o + 74 + pl) =~= pba);
            assert(c.subrange(o + 74, o + 74 + pl) =~= pbb);
            vstd::utf8::encode_utf8_decode_utf8(pa);
            vstd::utf8::encode_utf8_decode_utf8(pb);
            assert(pa == decode_utf8(pba) && pb == decode_utf8(pbb));
            assert(a == b);
        },
    }
    assert(enc_km(a) == enc_km(b));
    let kl = enc_km(a).len() as int;
    assert(enc_km(a) + r1 == enc_km(b) + r2);
    assert((enc_km(a) + r1).len() == kl + r1.len());
    assert((enc_km(b) + r2).len() == kl + r2.len());
    assert(r1.len() == r2.len());
    assert forall|i: int| 0 <= i < r1.len() implies r1[i] == r2[i] by {
        assert(c[kl + i] == r1[i]);
        assert(c[kl + i] == r2[i]);
    }
    assert(r1 =~= r2);
}

proof fn lemma_enc_entries_injective(s1: Seq<KmView>, s2: Seq<KmView>)
    requires
        store_wf(s1),
        store_wf(s2),
        forall|i: int| 0 <= i < s1.len() ==> km_encodable(#[trigger] s1[i]),
        forall|i: int| 0 <= i < s2.len() ==> km_encodable(#[trigger] s2[i]),
        s1.len() == s2.len(),
        enc_entries(s1) == enc_entries(s2),
    ensures
        s1 =~= s2,
    decreases s1.len(),
{
    if s1.len() > 0 {
        lemma_enc_km_prefix_injective(
            s1[0],
            s2[0],
            enc_entries(s1.drop_first()),
            enc_entries(s2.drop_first()),
        );
        let t1 = s1.drop_first();
        let t2 = s2.drop_first();
        assert(store_wf(t1)) by {
            assert forall|i: int, j: int| 0 <= i < j < t1.len() implies (#[trigger] t1[i]).name
                != (#[trigger] t1[j]).name by {
                assert(t1[i] == s1[i + 1] && t1[j] == s1[j + 1]);
            }
            assert forall|i: int| 0 <= i < t1.len() implies (#[trigger] t1[i]).wf() by {
                assert(t1[i] == s1[i + 1]);
            }
        }
        assert(store_wf(t2)) by {
            assert forall|i: int, j: int| 0 <= i < j < t2.len() implies (#[trigger] t2[i]).name
                != (#[trigger] t2[j]).name by {
                assert(t2[i] == s2[i + 1] && t2[j] == s2[j + 1]);
            }
            assert forall|i: int| 0 <= i < t2.len() implies (#[trigger] t2[i]).wf() by {
                assert(t2[i] == s2[i + 1]);
            }
        }
        assert(forall|i: int| 0 <= i < t1.len() ==> km_encodable(#[trigger] t1[i]) && km_encodable(
            t2[i],
        )) by {
            assert(forall|i: int| 0 <= i < t1.len() ==> t1[i] == s1[i + 1] && t2[i] == s2[i + 1]);
        }
        lemma_enc_entries_injective(t1, t2);
        assert forall|i: int| 0 <= i < s1.len() implies s1[i] == s2[i] by {
            if i > 0 {
                assert(s1[i] == t1[i - 1] && s2[i] == t2[i - 1]);
            }
        }
    }
}

/// A well-formed store's own image is a valid image, so `decode_store`
/// is bound by its contract to accept it — and, by
/// `lemma_store_image_injective`, to reconstruct exactly that store.
pub proof fn lemma_own_image(s: Seq<KmView>)
    requires
        store_wf(s),
        store_encodable(s),
    ensures
        is_image(enc_store(s)),
{
    let b = enc_store(s);
    assert(store_wf(s) && store_encodable(s) && enc_store(s) == b);
}

/// A persisted image determines the store: any two well-formed stores
/// whose images are the same bytes hold the same entries, so reloading
/// the image of a store can only reconstruct that store — the same names,
/// keys and derived addresses, in the same order.
pub proof fn lemma_store_image_injective(s1: Seq<KmView>, s2: Seq<KmView>)
    requires
        store_wf(s1),
        store_wf(s2),
        store_encodable(s1),
        store_encodable(s2),
        enc_store(s1) == enc_store(s2),
    ensures
        s1 == s2,
{
    reveal_with_fuel(pow256, 9);
    let c = enc_store(s1);
    assert(s1.len() as u64 as int == s1.len() as int);
    assert(s2.len() as u64 as int == s2.len() as int);
    wire::lemma_u64_in_range(s1.len() as u64);
    wire::lemma_u64_in_range(s2.len() as u64);
    assert(c.subrange(0, 8) =~= u64_le(s1.len() as u64));
    assert(c.subrange(0, 8) =~= u64_le(s2.len() as u64));
    wire::lemma_le_injective(s1.len() as int, s2.len() as int, 8);
    assert(c.subrange(8, c.len() as int) =~= enc_entries(s1));
    assert(c.subrange(8, c.len() as int) =~= enc_entries(s2));
    lemma_enc_entries_injective(s1, s2);
}

} // verus!
