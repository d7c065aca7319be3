//! The keystore: a named, insertion-ordered collection of key material
//! with unique names. All mutating operations either perform their whole
//! effect or leave the store exactly as it was.

use vstd::prelude::*;
use crate::address;
use crate::address::address_of;
use crate::errors::KeystoreError;
use crate::material::KeyMaterial;
use crate::material::KmView;
use crate::material::from_raw_result;
use crate::material::from_seed_result;
use crate::material::zero_bytes;

verus! {

/// Whether some entry carries this name.
pub open spec fn has_name(s: Seq<KmView>, name: Seq<char>) -> bool {
    exists|i: int| 0 <= i < s.len() && s[i].name == name
}

/// The index of the entry carrying this name (meaningful under
/// `has_name` and `store_wf`, which makes it unique).
pub open spec fn index_of_name(s: Seq<KmView>, name: Seq<char>) -> int {
    choose|i: int| 0 <= i < s.len() && s[i].name == name
}

/// The private key of the entry carrying this name.
pub open spec fn named_key(s: Seq<KmView>, name: Seq<char>) -> Seq<u8> {
    s[index_of_name(s, name)].private_key
}

/// Every entry is a well-formed key pair and no two entries share a name.
pub open spec fn store_wf(s: Seq<KmView>) -> bool {
    &&& forall|i: int| 0 <= i < s.len() ==> (#[trigger] s[i]).wf()
    &&& forall|i: int, j: int| 0 <= i < j < s.len() ==> (#[trigger] s[i]).name != (#[trigger] s[j]).name
}

/// In a well-formed store a name picks out at most one entry.
pub proof fn lemma_name_unique(s: Seq<KmView>, i: int, j: int)
    requires
        store_wf(s),
        0 <= i < s.len(),
        0 <= j < s.len(),
        s[i].name == s[j].name,
    ensures
        i == j,
{
}

/// What `import` returns, as a function of its inputs.
pub open spec fn import_result(
    s: Seq<KmView>,
    name: Seq<char>,
    seed: Seq<u8>,
    path: Option<Seq<char>>,
) -> Result<KmView, KeystoreError> {
    if has_name(s, name) {
        Err(KeystoreError::DuplicateName)
    } else {
        match path {
            Some(p) => from_seed_result(name, seed, p),
            None => from_raw_result(name, seed),
        }
    }
}

/// One row of `list`: a key's name and its derived address, never its
/// private bytes.
pub struct KeyListing {
    pub name: String,
    pub address: String,
}

/// A named collection of key material. The store owns its entries; they
/// leave it only as copies or, on `delete`, with their private bytes
/// zeroed first.
pub struct KeyStore {
    entries: Vec<KeyMaterial>,
}

impl View for KeyStore {
    type V = Seq<KmView>;

    closed spec fn view(&self) -> Seq<KmView> {
        Seq::new(self.entries@.len(), |i: int| self.entries@[i]@)
    }
}

impl KeyStore {
    /// Unique names, well-formed entries.
    pub open spec fn wf(&self) -> bool {
        store_wf(self@)
    }

    /// An empty store.
    pub fn new() -> (r: KeyStore)
        ensures
            r@.len() == 0,
            r.wf(),
    {
        KeyStore { entries: Vec::new() }
    }

    /// A store built from entries already known to be well formed and
    /// uniquely named (a reloaded persisted image).
    pub fn from_entries(entries: Vec<KeyMaterial>) -> (r: KeyStore)
        requires
            store_wf(Seq::new(entries@.len(), |i: int| entries@[i]@)),
        ensures
            r@ == Seq::new(entries@.len(), |i: int| entries@[i]@),
            r.wf(),
    {
        KeyStore { entries }
    }

    /// The entry index carrying `name`, if any.
    fn find(&self, name: &String) -> (r: Option<usize>)
        ensures
            r matches Some(i) ==> 0 <= i < self@.len() && self@[i as int].name == name@,
            r is None ==> !has_name(self@, name@),
    {
        let mut i: usize = 0;
        while i < self.entries.len()
            invariant
                i <= self.entries@.len(),
                forall|t: int| 0 <= t < i ==> (#[trigger] self.entries@[t])@.name != name@,
            decreases self.entries@.len() - i,
        {
            if self.entries[i].name == *name {
                return Some(i);
            }
            i = i + 1;
        }
        None
    }

    /// How many keys the store holds.
    pub fn len(&self) -> (r: usize)
        ensures
            r == self@.len(),
    {
        self.entries.len()
    }

    /// The entry at a position, in creation order.
    pub fn entry_at(&self, i: usize) -> (r: &KeyMaterial)
        requires
            i < self@.len(),
        ensures
            r@ == self@[i as int],
    {
        &self.entries[i]
    }

    /// Generates a fresh key under `name`. `DuplicateName` exactly where
    /// the name is taken, and then nothing changes; `Entropy` only where
    /// the entropy source failed, and then nothing changes either.
    pub fn add(&mut self, name: &str) -> (r: Result<KeyMaterial, KeystoreError>)
        requires
            old(self).wf(),
        ensures
            final(self).wf(),
            r matches Ok(km) ==> km@.wf() && km@.name == name@ && km@.derivation_path is None
                && final(self)@ == old(self)@.push(km@),
            r matches Err(e) ==> final(self)@ == old(self)@ && (e == KeystoreError::DuplicateName
                || e == KeystoreError::Entropy),
            (r matches Err(e) && e == KeystoreError::DuplicateName) <==> has_name(
                old(self)@,
                name@,
            ),
    {
        let owned: String = name.to_owned();
        match self.find(&owned) {
            Some(_) => Err(KeystoreError::DuplicateName),
            None => {
                match KeyMaterial::generate(name) {
                    Err(e) => Err(e),
                    Ok(km) => {
                        let out = km.duplicate();
                        self.entries.push(km);
                        proof {
                            assert(self@ =~= old(self)@.push(out@));
                            lemma_push_keeps_wf(old(self)@, out@);
                        }
                        Ok(out)
                    },
                }
            },
        }
    }

    /// Imports an externally supplied key under `name`: with a path, by
    /// deterministic seed derivation; without one, as a raw 32-byte key.
    /// The result and the new state are exactly `import_result`.
    pub fn import(&mut self, name: &str, seed: &Vec<u8>, path: Option<&str>) -> (r: Result<
        KeyMaterial,
        KeystoreError,
    >)
        requires
            old(self).wf(),
        ensures
            final(self).wf(),
            r matches Ok(km) ==> import_result(old(self)@, name@, seed@, opt_str_view(path))
                == Ok::<KmView, KeystoreError>(km@) && final(self)@ == old(self)@.push(km@),
            r matches Err(e) ==> import_result(old(self)@, name@, seed@, opt_str_view(path))
                == Err::<KmView, KeystoreError>(e) && final(self)@ == old(self)@,
    {
        let owned: String = name.to_owned();
        match self.find(&owned) {
            Some(_) => Err(KeystoreError::DuplicateName),
            None => {
                let made = match path {
                    Some(p) => KeyMaterial::from_seed(name, seed, p),
                    None => KeyMaterial::from_raw(name, seed),
                };
                match made {
                    Err(e) => Err(e),
                    Ok(km) => {
                        let out = km.duplicate();
                        self.entries.push(km);
                        proof {
                            assert(self@ =~= old(self)@.push(out@));
                            lemma_push_keeps_wf(old(self)@, out@);
                        }
                        Ok(out)
                    },
                }
            },
        }
    }

    /// Read-only lookup. `Ok` exactly where the store holds `name`, and
    /// then the returned reference is that entry.
    pub fn get(&self, name: &str) -> (r: Result<&KeyMaterial, KeystoreError>)
        requires
            self.wf(),
        ensures
            r matches Ok(km) ==> km@.name == name@ && 0 <= index_of_name(self@, name@)
                < self@.len() && km@ == self@[index_of_name(self@, name@)],
            r is Ok <==> has_name(self@, name@),
            r matches Err(e) ==> e == KeystoreError::NotFound,
    {
        let owned: String = name.to_owned();
        match self.find(&owned) {
            None => Err(KeystoreError::NotFound),
            Some(i) => {
                proof {
                    lemma_name_unique(self@, i as int, index_of_name(self@, name@));
                }
                Ok(&self.entries[i])
            },
        }
    }

    /// Removes the entry under `name`, zeroing its private-key buffer
    /// before it is dropped. `NotFound` exactly where the name is absent,
    /// and then nothing changes. Irreversible: no soft delete.
    pub fn delete(&mut self, name: &str) -> (r: Result<(), KeystoreError>)
        requires
            old(self).wf(),
        ensures
            final(self).wf(),
            r is Ok <==> has_name(old(self)@, name@),
            r matches Err(e) ==> e == KeystoreError::NotFound && final(self)@ == old(self)@,
            r is Ok ==> final(self)@ == old(self)@.remove(index_of_name(old(self)@, name@))
                && !has_name(final(self)@, name@),
    {
        let owned: String = name.to_owned();
        match self.find(&owned) {
            None => Err(KeystoreError::NotFound),
            Some(i) => {
                let ghost idx = index_of_name(old(self)@, name@);
                proof {
                    assert(has_name(old(self)@, name@));
                    lemma_name_unique(old(self)@, i as int, idx);
                }
                let mut removed = self.entries.remove(i);
                zero_bytes(&mut removed.private_key);
                proof {
                    assert(self@ =~= old(self)@.remove(i as int));
                    lemma_remove_keeps_wf(old(self)@, i as int);
                    assert forall|t: int| 0 <= t < self@.len() implies (#[trigger] self@[t]).name
                        != name@ by {
                        let ot = if t < i as int {
                            t
                        } else {
                            t + 1
                        };
                        assert(self@[t] == old(self)@[ot]);
                        if old(self)@[ot].name == name@ {
                            lemma_name_unique(old(self)@, ot, idx);
                        }
                    }
                }
                Ok(())
            },
        }
    }

    /// Enumerates the entries in creation order as name/address rows;
    /// private keys are never part of the output.
    pub fn list(&self) -> (r: Vec<KeyListing>)
        requires
            self.wf(),
        ensures
            r@.len() == self@.len(),
            forall|i: int| 0 <= i < self@.len() ==> (#[trigger] r@[i]).name@ == self@[i].name
                && r@[i].address@ == address_of(self@[i].public_key),
    {
        let mut out: Vec<KeyListing> = Vec::new();
        let mut i: usize = 0;
        while i < self.entries.len()
            invariant
                self.wf(),
                i <= self.entries@.len(),
                out@.len() == i,
                forall|t: int| 0 <= t < i ==> (#[trigger] out@[t]).name@ == self@[t].name
                    && out@[t].address@ == address_of(self@[t].public_key),
            decreases self.entries@.len() - i,
        {
            let entry = &self.entries[i];
            let address = match address::derive_address(&entry.public_key) {
                Ok(a) => a,
                Err(_) => {
                    proof {
                        assert(self@[i as int].wf());
                        assert(false);
                    }
                    String::new()
                },
            };
            out.push(KeyListing { name: entry.name.clone(), address });
            i = i + 1;
        }
        out
    }
}

/// The view of an option of borrowed text.
pub open spec fn opt_str_view(p: Option<&str>) -> Option<Seq<char>> {
    match p {
        Some(s) => Some(s@),
        None => None,
    }
}

/// After a successful `add` or `import` the new name is taken: the store
/// holds it, so by their contracts a second `add` or `import` under the
/// same name must return `DuplicateName` and leave the store unchanged.
pub proof fn lemma_added_name_present(pre: Seq<KmView>, e: KmView)
    ensures
        has_name(pre.push(e), e.name),
{
    assert(pre.push(e)[pre.len() as int] == e);
}

/// Appending a well-formed entry under a fresh name keeps a store well
/// formed.
pub proof fn lemma_push_keeps_wf(s: Seq<KmView>, e: KmView)
    requires
        store_wf(s),
        e.wf(),
        !has_name(s, e.name),
    ensures
        store_wf(s.push(e)),
{
    let t = s.push(e);
    assert forall|i: int, j: int| 0 <= i < j < t.len() implies (#[trigger] t[i]).name
        != (#[trigger] t[j]).name by {
        if j < s.len() {
        } else {
            assert(t[i] == s[i]);
            if t[i].name == e.name {
                assert(has_name(s, e.name));
            }
        }
    }
}

proof fn lemma_remove_keeps_wf(s: Seq<KmView>, at: int)
    requires
        store_wf(s),
        0 <= at < s.len(),
    ensures
        store_wf(s.remove(at)),
{
    let t = s.remove(at);
    assert forall|i: int| 0 <= i < t.len() implies (#[trigger] t[i]).wf() by {
        if i < at {
            assert(t[i] == s[i]);
        } else {
            assert(t[i] == s[i + 1]);
        }
    }
    assert forall|i: int, j: int| 0 <= i < j < t.len() implies (#[trigger] t[i]).name
        != (#[trigger] t[j]).name by {
        let oi = if i < at { i } else { i + 1 };
        let oj = if j < at { j } else { j + 1 };
        assert(t[i] == s[oi]);
        assert(t[j] == s[oj]);
    }
}

} // verus!
