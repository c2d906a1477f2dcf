//! Long-term device identity: an Ed25519 key pair held as its 32-byte secret.
use vstd::prelude::*;

use crate::crypto::{
    ed25519_public, ed25519_public_of, ed25519_sign, ed25519_signature_of, ed25519_verify,
    ed25519_accepts, hex_lower, random_bytes, to_hex,
};

verus! {

/// Why a stored key could not be used.
#[derive(Debug, Clone, Copy, PartialEq, Eq, Structural)]
pub enum KeyError {
    /// The stored secret is not exactly 32 bytes long.
    BadLength,
}

/// A device identity. The secret never leaves this type except through
/// [`Identity::secret_bytes`], which exists so that it can be persisted.
#[derive(Clone)]
pub struct Identity {
    secret: [u8; 32],
}

impl Identity {
    /// The 32-byte Ed25519 secret key.
    pub closed spec fn secret(&self) -> Seq<u8> {
        self.secret@
    }

    /// The 32-byte Ed25519 verification key.
    pub open spec fn public_key(&self) -> Seq<u8> {
        ed25519_public_of(self.secret())
    }

    /// An identity from a fresh random secret key: 32 bytes drawn from the
    /// operating system's random source, taken as the secret.
    pub fn generate() -> (r: Identity)
        ensures
            r.secret().len() == 32,
    {
        let bytes = random_bytes(32);
        match Identity::from_secret_bytes(bytes.as_slice()) {
            Ok(id) => id,
            Err(_) => Identity { secret: [0u8; 32] },
        }
    }

    /// An identity from a stored secret key, which must be exactly 32 bytes.
    pub fn from_secret_bytes(data: &[u8]) -> (r: Result<Identity, KeyError>)
        ensures
            match r {
                Ok(id) => data@.len() == 32 && id.secret() == data@,
                Err(e) => data@.len() != 32 && e == KeyError::BadLength,
            },
    {
        if data.len() != 32 {
            return Err(KeyError::BadLength);
        }
        let mut secret = [0u8; 32];
        let mut i: usize = 0;
        while i < 32
            invariant
                data@.len() == 32,
                secret@.len() == 32,
                i <= 32,
                forall|j: int| 0 <= j < i ==> secret@[j] == data@[j],
            decreases 32 - i,
        {
            secret[i] = data[i];
            i = i + 1;
        }
        assert(secret@ =~= data@);
        Ok(Identity { secret })
    }

    /// The secret key, for persisting it.
    pub fn secret_bytes(&self) -> (r: [u8; 32])
        ensures
            r@ == self.secret(),
    {
        self.secret
    }

    /// The verification key.
    pub fn public_key_bytes(&self) -> (r: [u8; 32])
        ensures
            r@ == self.public_key(),
    {
        ed25519_public(&self.secret)
    }

    /// A short fingerprint: the hex of the first four bytes of the
    /// verification key.
    pub fn fingerprint(&self) -> (r: String)
        ensures
            r@ == hex_lower(self.public_key().take(4)),
    {
        let public = self.public_key_bytes();
        let head = vstd::slice::slice_subrange(public.as_slice(), 0, 4);
        to_hex(head)
    }

    /// The full fingerprint: the hex of the verification key.
    pub fn full_fingerprint(&self) -> (r: String)
        ensures
            r@ == hex_lower(self.public_key()),
    {
        let public = self.public_key_bytes();
        to_hex(public.as_slice())
    }

    /// Signs `msg`; the signature verifies under [`Identity::public_key_bytes`].
    pub fn sign(&self, msg: &[u8]) -> (r: [u8; 64])
        ensures
            r@ == ed25519_signature_of(self.secret(), msg@),
            ed25519_accepts(self.public_key(), msg@, r@),
    {
        ed25519_sign(&self.secret, msg)
    }

    /// Whether `sig` is a valid signature of `msg` under the verification key
    /// `public`.
    pub fn verify_with_pubkey(public: &[u8; 32], msg: &[u8], sig: &[u8; 64]) -> (r: bool)
        ensures
            r == ed25519_accepts(public@, msg@, sig@),
    {
        ed25519_verify(public, msg, sig)
    }
}

} // verus!
