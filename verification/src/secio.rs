use vstd::prelude::*;

verus! {

/// The encoded public identity key of a peer, as the handshake verified it.
#[derive(Debug, PartialEq, Eq, Hash)]
pub struct PublicKey {
    key: Vec<u8>,
}

impl View for PublicKey {
    type V = Seq<u8>;

    closed spec fn view(&self) -> Seq<u8> {
        self.key@
    }
}

impl Clone for PublicKey {
    fn clone(&self) -> (copy: Self)
        ensures
            copy@ == self@,
    {
        PublicKey { key: self.key.clone() }
    }
}

impl PublicKey {
    /// The key with the given encoding.
    pub fn new(key: Vec<u8>) -> (public: Self)
        ensures
            public@ == key@,
    {
        PublicKey { key }
    }

    /// The key's encoding.
    pub fn as_bytes(&self) -> (bytes: &Vec<u8>)
        ensures
            bytes@ == self@,
    {
        &self.key
    }
}

/// The identity of the local node: its public key and the secret that
/// belongs to it. The service only carries it for the handshake.
#[derive(Debug)]
pub struct SecioKeyPair {
    public: PublicKey,
    secret: Vec<u8>,
}

impl Clone for SecioKeyPair {
    fn clone(&self) -> (copy: Self)
        ensures
            copy.public_key()@ == self.public_key()@,
            copy.secret()@ == self.secret()@,
    {
        SecioKeyPair { public: self.public.clone(), secret: self.secret.clone() }
    }
}

impl SecioKeyPair {
    pub closed spec fn public_key(&self) -> PublicKey {
        self.public
    }

    pub closed spec fn secret(&self) -> Vec<u8> {
        self.secret
    }

    /// The pair of a public key and its secret.
    pub fn new(public: PublicKey, secret: Vec<u8>) -> (pair: Self)
        ensures
            pair.public_key() == public,
            pair.secret() == secret,
    {
        SecioKeyPair { public, secret }
    }

    /// The public half, which peers get to see.
    pub fn to_public_key(&self) -> (public: PublicKey)
        ensures
            public@ == self.public_key()@,
    {
        self.public.clone()
    }
}

} // verus!
