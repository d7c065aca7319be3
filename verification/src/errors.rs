use vstd::prelude::*;

verus! {

/// Every failure this library reports. Each operation's contract says
/// exactly which variants it can return and on which inputs.
#[derive(Clone, Copy, Debug, PartialEq, Eq, Structural)]
pub enum KeystoreError {
    /// An `add` or `import` named a key that the store already holds.
    DuplicateName,
    /// A lookup or `delete` named a key the store does not hold.
    NotFound,
    /// A seed with an unacceptable length, or one that derives an
    /// unusable secret scalar.
    InvalidSeed,
    /// A derivation path that does not follow the path grammar.
    InvalidDerivationPath,
    /// A public key whose encoding has the wrong length.
    InvalidPublicKey,
    /// The operating system's entropy source failed, or key generation
    /// repeatedly produced an unusable scalar.
    Entropy,
    /// The signature algorithm rejected the key or message.
    Signing,
    /// A persisted store image that is not a valid encoding.
    Persistence,
}

} // verus!
