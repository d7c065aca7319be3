//! The `keys cosmos show` subcommand's decision core: what to display for
//! a named key. The surrounding command layer parses arguments and prints;
//! this resolves the name and derives the address.

use vstd::prelude::*;
use crate::address;
use crate::address::address_of;
use crate::errors::KeystoreError;
use crate::store::KeyListing;
use crate::store::KeyStore;
use crate::store::has_name;
use crate::store::index_of_name;

verus! {

/// Shows one named key of the store.
pub struct ShowCosmosKeyCmd {
    pub name: String,
}

impl ShowCosmosKeyCmd {
    /// The displayable row for the named key: its name and derived
    /// address, never private bytes. `NotFound` exactly where the store
    /// holds no key of that name.
    pub fn run(&self, store: &KeyStore) -> (r: Result<KeyListing, KeystoreError>)
        requires
            store.wf(),
        ensures
            r is Ok <==> has_name(store@, self.name@),
            r matches Ok(l) ==> l.name@ == self.name@ && l.address@ == address_of(
                store@[index_of_name(store@, self.name@)].public_key,
            ),
            r matches Err(e) ==> e == KeystoreError::NotFound,
    {
        let km = match store.get(self.name.as_str()) {
            Ok(k) => k,
            Err(_) => {
                return Err(KeystoreError::NotFound);
            },
        };
        match address::derive_address(&km.public_key) {
            Ok(a) => Ok(KeyListing { name: self.name.clone(), address: a }),
            Err(_) => {
                proof {
                    assert(store@[index_of_name(store@, self.name@)].wf());
                    assert(false);
                }
                Err(KeystoreError::NotFound)
            },
        }
    }
}

} // verus!
