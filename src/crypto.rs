//! The cryptographic primitives the transfer pipeline is built on: SHA-256,
//! lowercase hex, Ed25519, X25519, HKDF-SHA256, XChaCha20-Poly1305 and the
//! operating system's random source.
//!
//! Each primitive is reached through one small wrapper whose contract states
//! what the underlying crate documents. Results that are a function of the
//! arguments alone are given a name; results that depend on chance are only
//! bounded in shape.
use vstd::prelude::*;

use chacha20poly1305::aead::{Aead, KeyInit};
use ed25519_dalek::{Signer, Verifier};
use rand_core::RngCore;
use sha2::Digest;

verus! {

/// Length in bytes of an Ed25519 verification key.
pub const PUBLIC_KEY_LEN: usize = 32;

/// Length in bytes of an Ed25519 signature.
pub const SIGNATURE_LEN: usize = 64;

/// Length in bytes of an XChaCha20-Poly1305 nonce.
pub const XNONCE_LEN: usize = 24;

/// Length in bytes of a Poly1305 authentication tag.
pub const TAG_LEN: usize = 16;

/// The SHA-256 digest of a byte string.
pub uninterp spec fn sha256_of(data: Seq<u8>) -> Seq<u8>;

/// The Ed25519 verification key that belongs to a 32-byte secret key.
pub uninterp spec fn ed25519_public_of(secret: Seq<u8>) -> Seq<u8>;

/// The (deterministic) Ed25519 signature of `msg` under a 32-byte secret key.
pub uninterp spec fn ed25519_signature_of(secret: Seq<u8>, msg: Seq<u8>) -> Seq<u8>;

/// Whether Ed25519 verification of `sig` over `msg` under the encoded key
/// `public` succeeds (the key must also decode to a curve point).
pub uninterp spec fn ed25519_accepts(public: Seq<u8>, msg: Seq<u8>, sig: Seq<u8>) -> bool;

/// The 32 bytes of output key material of HKDF-SHA256 with an empty salt.
pub uninterp spec fn hkdf_sha256_of(ikm: Seq<u8>, info: Seq<u8>) -> Seq<u8>;

/// XChaCha20-Poly1305 encryption with empty associated data: ciphertext
/// followed by the 16-byte tag.
pub uninterp spec fn xchacha_seal_of(key: Seq<u8>, nonce: Seq<u8>, plaintext: Seq<u8>) -> Seq<u8>;

/// XChaCha20-Poly1305 decryption with empty associated data; `None` when the
/// tag does not authenticate.
pub uninterp spec fn xchacha_open_of(key: Seq<u8>, nonce: Seq<u8>, sealed: Seq<u8>) -> Option<Seq<u8>>;

/// The lowercase hexadecimal digit for a value below 16.
pub open spec fn hex_digit(v: u8) -> char {
    if v < 10 {
        (v + 48) as char
    } else {
        (v + 87) as char
    }
}

/// Lowercase hexadecimal rendering, two digits per byte, high nibble first.
pub open spec fn hex_lower(data: Seq<u8>) -> Seq<char> {
    Seq::new(
        2 * data.len(),
        |i: int|
            if i % 2 == 0 {
                hex_digit(data[i / 2] / 16)
            } else {
                hex_digit(data[i / 2] % 16)
            },
    )
}

/// Relies on `sha2::Sha256::digest`: the 32-byte SHA-256 digest of the input.
#[verifier::external_body]
pub(crate) fn sha256(data: &[u8]) -> (r: Vec<u8>)
    ensures
        r@ == sha256_of(data@),
        r@.len() == 32,
{
    sha2::Sha256::digest(data).to_vec()
}

/// Relies on `hex::encode`: lowercase hex, two digits per byte, no separators.
#[verifier::external_body]
pub(crate) fn to_hex(data: &[u8]) -> (r: String)
    ensures
        r@ == hex_lower(data@),
{
    hex::encode(data)
}

/// Relies on `SigningKey::from_bytes` and `SigningKey::verifying_key`: the
/// verification key of a secret key, encoded in 32 bytes.
#[verifier::external_body]
pub(crate) fn ed25519_public(secret: &[u8; 32]) -> (r: [u8; 32])
    ensures
        r@ == ed25519_public_of(secret@),
{
    ed25519_dalek::SigningKey::from_bytes(secret).verifying_key().to_bytes()
}

/// Relies on `SigningKey::sign` (`Signer`): the 64-byte Ed25519 signature,
/// which verification under the matching public key accepts.
#[verifier::external_body]
pub(crate) fn ed25519_sign(secret: &[u8; 32], msg: &[u8]) -> (r: [u8; 64])
    ensures
        r@ == ed25519_signature_of(secret@, msg@),
        ed25519_accepts(ed25519_public_of(secret@), msg@, r@),
{
    ed25519_dalek::SigningKey::from_bytes(secret).sign(msg).to_bytes()
}

/// Relies on `VerifyingKey::from_bytes` and `VerifyingKey::verify`
/// (`Verifier`): true exactly when the key decodes and the signature verifies.
#[verifier::external_body]
pub(crate) fn ed25519_verify(public: &[u8; 32], msg: &[u8], sig: &[u8; 64]) -> (r: bool)
    ensures
        r == ed25519_accepts(public@, msg@, sig@),
{
    match ed25519_dalek::VerifyingKey::from_bytes(public) {
        Ok(key) => key.verify(msg, &ed25519_dalek::Signature::from_bytes(sig)).is_ok(),
        Err(_) => false,
    }
}

/// Relies on `Hkdf::<Sha256>::new(None, ikm)` and `Hkdf::expand`, which
/// cannot fail for 32 bytes of output.
#[verifier::external_body]
pub(crate) fn hkdf_sha256(ikm: &[u8; 32], info: &[u8]) -> (r: [u8; 32])
    ensures
        r@ == hkdf_sha256_of(ikm@, info@),
{
    let hk = hkdf::Hkdf::<sha2::Sha256>::new(None, ikm);
    let mut okm = [0u8; 32];
    let _ = hk.expand(info, &mut okm);
    okm
}

/// Relies on `XChaCha20Poly1305::encrypt` with empty associated data, which
/// appends a 16-byte tag, fails only for inputs of over 256 GiB, and
/// whose output decryption under the same key and nonce gives back.
#[verifier::external_body]
pub(crate) fn xchacha_seal(key: &[u8; 32], nonce: &[u8; 24], plaintext: &[u8]) -> (r: Vec<u8>)
    requires
        plaintext@.len() <= u32::MAX,
    ensures
        r@ == xchacha_seal_of(key@, nonce@, plaintext@),
        r@.len() == plaintext@.len() + TAG_LEN,
        xchacha_open_of(key@, nonce@, r@) == Some(plaintext@),
{
    let cipher = chacha20poly1305::XChaCha20Poly1305::new(key.into());
    cipher.encrypt(nonce.into(), plaintext).unwrap_or_default()
}

/// Relies on `XChaCha20Poly1305::decrypt` with empty associated data: the
/// plaintext, or `None` when authentication fails; input shorter than the
/// 16-byte tag always fails.
#[verifier::external_body]
pub(crate) fn xchacha_open(key: &[u8; 32], nonce: &[u8; 24], sealed: &[u8]) -> (r: Option<Vec<u8>>)
    ensures
        match r {
            Some(p) => xchacha_open_of(key@, nonce@, sealed@) == Some(p@),
            None => xchacha_open_of(key@, nonce@, sealed@) is None,
        },
        sealed@.len() < TAG_LEN ==> r is None,
{
    let cipher = chacha20poly1305::XChaCha20Poly1305::new(key.into());
    cipher.decrypt(nonce.into(), sealed).ok()
}

/// Relies on `rand_core::OsRng::fill_bytes`: `n` bytes from the operating
/// system's secure random source.
#[verifier::external_body]
pub(crate) fn random_bytes(n: usize) -> (r: Vec<u8>)
    ensures
        r@.len() == n,
{
    let mut buf = vec![0u8; n];
    rand_core::OsRng.fill_bytes(&mut buf);
    buf
}

/// Relies on `String::from_utf8`: succeeds exactly on valid UTF-8 and keeps
/// the bytes as they are.
#[verifier::external_body]
pub(crate) fn utf8_text(bytes: Vec<u8>) -> (r: Option<String>)
    ensures
        r is Some <==> vstd::utf8::valid_utf8(bytes@),
        r matches Some(s) ==> vstd::utf8::encode_utf8(s@) == bytes@,
{
    String::from_utf8(bytes).ok()
}

/// Relies on `EphemeralSecret::random_from_rng(OsRng)` and
/// `PublicKey::from(&EphemeralSecret)`: a fresh X25519 secret and its public key.
#[verifier::external_body]
pub(crate) fn x25519_ephemeral() -> (r: (x25519_dalek::EphemeralSecret, [u8; 32])) {
    let secret = x25519_dalek::EphemeralSecret::random_from_rng(rand_core::OsRng);
    let public = x25519_dalek::PublicKey::from(&secret);
    (secret, public.to_bytes())
}

/// Relies on `EphemeralSecret::diffie_hellman`, which consumes the secret so
/// that it is used once: the 32-byte shared secret with a peer's public key.
#[verifier::external_body]
pub(crate) fn x25519_agree(secret: x25519_dalek::EphemeralSecret, peer_public: &[u8; 32]) -> (r: [u8; 32]) {
    let peer = x25519_dalek::PublicKey::from(*peer_public);
    secret.diffie_hellman(&peer).to_bytes()
}

/// An X25519 secret drawn for one handshake; opaque to proofs.
#[verifier::external_type_specification]
#[verifier::external_body]
pub struct ExEphemeralSecret(x25519_dalek::EphemeralSecret);

/// The id of a chunk: the lowercase hex SHA-256 digest of its bytes.
pub open spec fn chunk_id_of(data: Seq<u8>) -> Seq<char> {
    hex_lower(sha256_of(data))
}

/// Computes the id of a chunk.
pub fn chunk_id(data: &[u8]) -> (r: String)
    ensures
        r@ == chunk_id_of(data@),
        r@.len() == 64,
{
    let digest = sha256(data);
    to_hex(digest.as_slice())
}

/// Whether two strings hold the same characters, compared by their UTF-8 bytes.
pub fn same_text(a: &str, b: &str) -> (r: bool)
    ensures
        r == (a@ == b@),
{
    let x = a.as_bytes();
    let y = b.as_bytes();
    proof {
        vstd::utf8::encode_utf8_decode_utf8(a@);
        vstd::utf8::encode_utf8_decode_utf8(b@);
    }
    if x.len() != y.len() {
        return false;
    }
    let mut i: usize = 0;
    while i < x.len()
        invariant
            x@.len() == y@.len(),
            x@ == vstd::utf8::encode_utf8(a@),
            y@ == vstd::utf8::encode_utf8(b@),
            i <= x@.len(),
            forall|j: int| 0 <= j < i ==> x@[j] == y@[j],
        decreases x@.len() - i,
    {
        if x[i] != y[i] {
            return false;
        }
        i = i + 1;
    }
    assert(x@ =~= y@);
    true
}

/// Copies 32 bytes into an array.
pub fn bytes32(v: &[u8]) -> (r: [u8; 32])
    requires
        v@.len() == 32,
    ensures
        r@ == v@,
{
    let mut a = [0u8; 32];
    let mut i: usize = 0;
    while i < 32
        invariant
            v@.len() == 32,
            a@.len() == 32,
            i <= 32,
            forall|j: int| 0 <= j < i ==> a@[j] == v@[j],
        decreases 32 - i,
    {
        a[i] = v[i];
        i = i + 1;
    }
    assert(a@ =~= v@);
    a
}

/// Copies 64 bytes into an array.
pub fn bytes64(v: &[u8]) -> (r: [u8; 64])
    requires
        v@.len() == 64,
    ensures
        r@ == v@,
{
    let mut a = [0u8; 64];
    let mut i: usize = 0;
    while i < 64
        invariant
            v@.len() == 64,
            a@.len() == 64,
            i <= 64,
            forall|j: int| 0 <= j < i ==> a@[j] == v@[j],
        decreases 64 - i,
    {
        a[i] = v[i];
        i = i + 1;
    }
    assert(a@ =~= v@);
    a
}

} // verus!
