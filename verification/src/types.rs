//! Key types. Keys are opaque labels here: the model keeps no real key material.

use vstd::prelude::*;

verus! {

/// A stand-in for a private key, carried as a label.
#[derive(Clone, Debug)]
pub struct PrivateKey(pub String);

impl PrivateKey {
    pub fn new(label: &str) -> (key: PrivateKey)
        ensures
            key.0@ == label@,
    {
        PrivateKey(String::from_str(label))
    }
}

/// A stand-in for a public key, carried as a label; peers are told apart by it.
#[derive(Clone, Debug, PartialEq, Eq, Hash)]
pub struct PublicKey(pub String);

impl PublicKey {
    pub fn new(label: &str) -> (key: PublicKey)
        ensures
            key.0@ == label@,
    {
        PublicKey(String::from_str(label))
    }

    /// The key's label as text.
    pub fn to_string(&self) -> (s: String)
        ensures
            s@ == self.0@,
    {
        self.0.clone()
    }

    /// Whether two keys carry the same label.
    pub fn same_as(&self, other: &PublicKey) -> (r: bool)
        ensures
            r == (self.0@ == other.0@),
    {
        self.0 == other.0
    }

    /// A copy of this key.
    pub fn copy(&self) -> (r: PublicKey)
        ensures
            r == *self,
            r.0@ == self.0@,
    {
        PublicKey(self.0.clone())
    }
}

} // verus!
