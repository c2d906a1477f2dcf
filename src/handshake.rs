//! The handshake that turns an untrusted byte stream into an encrypted
//! session, and the encrypted framing that the session provides.
//!
//! Each side sends one 128-byte message, `x_pub || nonce || sig`: a fresh
//! X25519 public key, 32 random bytes, and the Ed25519 signature of the
//! first 64 bytes under the sender's identity. The session key is
//! HKDF-SHA256 of the X25519 shared secret with the initiator's nonce
//! followed by the responder's as info. The handshake is split into steps so
//! that whoever drives the stream performs the reads and writes.
use vstd::prelude::*;

use crate::crypto::{
    bytes32, ed25519_accepts, ed25519_signature_of, hkdf_sha256, hkdf_sha256_of, random_bytes,
    x25519_agree, x25519_ephemeral, xchacha_open, xchacha_open_of, xchacha_seal, xchacha_seal_of, TAG_LEN,
    XNONCE_LEN,
};
use crate::frame::{frame_of, read_frame, write_frame, FrameError, Pipe, MAX_FRAME_LEN};
use crate::keys::Identity;

verus! {

/// Length of an X25519 public key.
pub const PUBKEY_LEN: usize = 32;

/// Length of a handshake nonce.
pub const NONCE_LEN: usize = 32;

/// Length of an Ed25519 signature.
pub const SIG_LEN: usize = 64;

/// Length of a handshake message.
pub const HELLO_LEN: usize = 128;

/// Why a handshake failed.
#[derive(Debug, Clone, Copy, PartialEq, Eq, Structural)]
pub enum HandshakeError {
    /// The stream failed.
    Frame(FrameError),
    /// The peer's message is shorter than 128 bytes.
    TooShort,
    /// The peer's signature does not verify under the key expected of it.
    BadPeerSignature,
    /// The X25519 shared secret is all zeros.
    WeakSharedSecret,
}

/// Why an encrypted frame could not be read.
#[derive(Debug, Clone, Copy, PartialEq, Eq, Structural)]
pub enum SessionError {
    /// The frame could not be read.
    Frame(FrameError),
    /// The payload is too short or does not authenticate.
    DecryptionFailed,
}

/// The handshake message of a side: its X25519 public key, its nonce, and
/// its signature of both under its identity.
pub open spec fn hello_of(x_pub: Seq<u8>, nonce: Seq<u8>, secret: Seq<u8>) -> Seq<u8> {
    x_pub + nonce + ed25519_signature_of(secret, x_pub + nonce)
}

/// The peer's X25519 public key in its message.
pub open spec fn hello_x_pub(msg: Seq<u8>) -> Seq<u8> {
    msg.subrange(0, 32)
}

/// The peer's nonce in its message.
pub open spec fn hello_nonce(msg: Seq<u8>) -> Seq<u8> {
    msg.subrange(32, 64)
}

/// The peer's signature in its message.
pub open spec fn hello_sig(msg: Seq<u8>) -> Seq<u8> {
    msg.subrange(64, 128)
}

/// Whether a peer message is refused for its signature: a key is expected of
/// the peer and the signature does not verify under it.
pub open spec fn signature_refused(msg: Seq<u8>, peer_key: Option<Seq<u8>>) -> bool {
    match peer_key {
        Some(k) => !ed25519_accepts(k, msg.subrange(0, 64), hello_sig(msg)),
        None => false,
    }
}

/// The bytes of an expected peer key.
pub open spec fn key_view(k: Option<&[u8; 32]>) -> Option<Seq<u8>> {
    match k {
        Some(key) => Some(key@),
        None => None,
    }
}

/// The session key from a shared secret and the two nonces, initiator's first.
pub open spec fn session_key_of(shared: Seq<u8>, nonce_i: Seq<u8>, nonce_r: Seq<u8>) -> Seq<u8> {
    hkdf_sha256_of(shared, nonce_i + nonce_r)
}

/// The plaintext that an encrypted payload `nonce || sealed` opens to under
/// `key`, or `None`.
pub open spec fn opened(key: Seq<u8>, payload: Seq<u8>) -> Option<Seq<u8>> {
    if payload.len() < XNONCE_LEN {
        None
    } else {
        xchacha_open_of(key, payload.take(24), payload.skip(24))
    }
}

/// An encrypted session: the AEAD key agreed in a handshake.
pub struct Session {
    pub session_key: [u8; 32],
}

/// A handshake in progress on our side: the X25519 secret (used once), our
/// public key and our nonce.
pub struct Pending {
    secret: x25519_dalek::EphemeralSecret,
    x_pub: [u8; 32],
    nonce: [u8; 32],
}

impl Pending {
    /// Our nonce.
    pub closed spec fn nonce(&self) -> Seq<u8> {
        self.nonce@
    }

    /// Our X25519 public key.
    pub closed spec fn x_pub(&self) -> Seq<u8> {
        self.x_pub@
    }
}

fn random_array32() -> (r: [u8; 32]) {
    let v = random_bytes(32);
    bytes32(v.as_slice())
}

/// Whether all bytes are zero.
fn all_zero(b: &[u8; 32]) -> (r: bool)
    ensures
        r == (b@ == Seq::new(32, |i: int| 0u8)),
{
    let mut i: usize = 0;
    while i < 32
        invariant
            i <= 32,
            b@.len() == 32,
            forall|j: int| 0 <= j < i ==> b@[j] == 0,
        decreases 32 - i,
    {
        if b[i] != 0 {
            assert(b@[i as int] != Seq::new(32, |i: int| 0u8)[i as int]);
            return false;
        }
        i = i + 1;
    }
    assert(b@ =~= Seq::new(32, |i: int| 0u8));
    true
}

/// Draws a fresh X25519 key pair and nonce and builds our handshake message.
pub fn start(identity: &Identity) -> (r: (Pending, Vec<u8>))
    ensures
        r.0.nonce().len() == 32,
        r.0.x_pub().len() == 32,
        r.1@ == hello_of(r.0.x_pub(), r.0.nonce(), identity.secret()),
        r.1@.len() == HELLO_LEN,
{
    let (secret, x_pub) = x25519_ephemeral();
    let nonce = random_array32();
    let mut signed: Vec<u8> = Vec::new();
    signed.extend_from_slice(x_pub.as_slice());
    let mut tail = vstd::slice::slice_to_vec(nonce.as_slice());
    signed.append(&mut tail);
    let ghost transcript = signed@;
    let sig = identity.sign(signed.as_slice());
    let mut sig_v = vstd::slice::slice_to_vec(sig.as_slice());
    let mut msg = signed;
    msg.append(&mut sig_v);
    proof {
        assert(transcript =~= x_pub@ + nonce@) by {
            assert forall|i: int| 0 <= i < 32 implies transcript[i] == x_pub@[i] by {}
        }
    }
    (Pending { secret, x_pub, nonce }, msg)
}

/// Checks the peer's message: long enough, and signed under `peer_key`
/// when one is expected.
pub fn check_hello(msg: &[u8], peer_key: Option<&[u8; 32]>) -> (r: Result<(), HandshakeError>)
    ensures
        match r {
            Ok(()) => msg@.len() >= HELLO_LEN && !signature_refused(msg@, key_view(peer_key)),
            Err(e) => if msg@.len() < HELLO_LEN {
                e == HandshakeError::TooShort
            } else {
                e == HandshakeError::BadPeerSignature && signature_refused(
                    msg@,
                    key_view(peer_key),
                )
            },
        },
{
    if msg.len() < HELLO_LEN {
        return Err(HandshakeError::TooShort);
    }
    match peer_key {
        Some(k) => {
            let signed = vstd::slice::slice_subrange(msg, 0, 64);
            let sig = crate::crypto::bytes64(vstd::slice::slice_subrange(msg, 64, 128));
            if Identity::verify_with_pubkey(k, signed, &sig) {
                Ok(())
            } else {
                Err(HandshakeError::BadPeerSignature)
            }
        },
        None => Ok(()),
    }
}

/// Derives the session from the X25519 shared secret and the two nonces,
/// the initiator's first. An all-zero shared secret is refused.
pub fn derive_session(shared: &[u8; 32], nonce_i: &[u8], nonce_r: &[u8]) -> (r: Result<Session, HandshakeError>)
    ensures
        match r {
            Ok(s) => shared@ != Seq::new(32, |i: int| 0u8) && s.session_key@ == session_key_of(
                shared@,
                nonce_i@,
                nonce_r@,
            ),
            Err(e) => e == HandshakeError::WeakSharedSecret && shared@ == Seq::new(32, |i: int| 0u8),
        },
{
    if all_zero(shared) {
        return Err(HandshakeError::WeakSharedSecret);
    }
    let mut info = vstd::slice::slice_to_vec(nonce_i);
    let mut tail = vstd::slice::slice_to_vec(nonce_r);
    info.append(&mut tail);
    let key = hkdf_sha256(shared, info.as_slice());
    Ok(Session { session_key: key })
}

/// The initiator's last step: checks the responder's message and derives
/// the session with our nonce first.
pub fn initiator_finish(pending: Pending, peer_msg: &[u8], peer_key: Option<&[u8; 32]>) -> (r: Result<Session, HandshakeError>)
    ensures
        (r == Err::<Session, HandshakeError>(HandshakeError::TooShort)) <==> peer_msg@.len() < HELLO_LEN,
        (r == Err::<Session, HandshakeError>(HandshakeError::BadPeerSignature)) <==> (peer_msg@.len()
            >= HELLO_LEN && signature_refused(peer_msg@, key_view(peer_key))),
        r matches Err(e) ==> e == HandshakeError::TooShort || e == HandshakeError::BadPeerSignature
            || e == HandshakeError::WeakSharedSecret,
        r matches Ok(s) ==> peer_msg@.len() >= HELLO_LEN && exists|shared: Seq<u8>|
            s.session_key@ == #[trigger] session_key_of(shared, pending.nonce(), hello_nonce(peer_msg@)),
{
    check_hello(peer_msg, peer_key)?;
    let peer_pub = bytes32(vstd::slice::slice_subrange(peer_msg, 0, 32));
    let peer_nonce = vstd::slice::slice_subrange(peer_msg, 32, 64);
    let ghost own_nonce = pending.nonce();
    let nonce = pending.nonce;
    let shared = x25519_agree(pending.secret, &peer_pub);
    let s = derive_session(&shared, nonce.as_slice(), peer_nonce)?;
    assert(s.session_key@ == session_key_of(shared@, own_nonce, hello_nonce(peer_msg@)));
    Ok(s)
}

/// The responder's step: checks the initiator's message, draws our key pair
/// and nonce, and derives the session with the initiator's nonce first.
/// Returns the session and our message.
pub fn responder_reply(identity: &Identity, peer_msg: &[u8], peer_key: Option<&[u8; 32]>) -> (r: Result<(Session, Vec<u8>), HandshakeError>)
    ensures
        (r matches Err(e) && e == HandshakeError::TooShort) <==> peer_msg@.len() < HELLO_LEN,
        (r matches Err(e) && e == HandshakeError::BadPeerSignature) <==> (peer_msg@.len()
            >= HELLO_LEN && signature_refused(peer_msg@, key_view(peer_key))),
        r matches Err(e) ==> e == HandshakeError::TooShort || e == HandshakeError::BadPeerSignature
            || e == HandshakeError::WeakSharedSecret,
        r matches Ok((s, reply)) ==> peer_msg@.len() >= HELLO_LEN && reply@.len() == HELLO_LEN
            && exists|x_pub: Seq<u8>, nonce: Seq<u8>, shared: Seq<u8>|
            x_pub.len() == 32 && nonce.len() == 32 && reply@ == #[trigger] hello_of(x_pub, nonce, identity.secret()) && s.session_key@
                == #[trigger] session_key_of(shared, hello_nonce(peer_msg@), nonce),
{
    check_hello(peer_msg, peer_key)?;
    let peer_pub = bytes32(vstd::slice::slice_subrange(peer_msg, 0, 32));
    let peer_nonce = vstd::slice::slice_subrange(peer_msg, 32, 64);
    let (pending, reply) = start(identity);
    let ghost own_nonce = pending.nonce();
    let ghost own_pub = pending.x_pub();
    let nonce = pending.nonce;
    let shared = x25519_agree(pending.secret, &peer_pub);
    let s = derive_session(&shared, peer_nonce, nonce.as_slice())?;
    assert(reply@ == hello_of(own_pub, own_nonce, identity.secret()));
    assert(s.session_key@ == session_key_of(shared@, hello_nonce(peer_msg@), own_nonce));
    Ok((s, reply))
}

impl Session {
    /// Encrypts `plaintext` under a fresh random 24-byte nonce and returns
    /// `nonce || ciphertext || tag`, which this session's key opens.
    pub fn seal(&self, plaintext: &[u8]) -> (r: Vec<u8>)
        requires
            plaintext@.len() + XNONCE_LEN + TAG_LEN <= u32::MAX,
        ensures
            r@.len() == XNONCE_LEN + plaintext@.len() + TAG_LEN,
            opened(self.session_key@, r@) == Some(plaintext@),
            exists|n: Seq<u8>|
                n.len() == XNONCE_LEN && r@ == n + #[trigger] xchacha_seal_of(
                    self.session_key@,
                    n,
                    plaintext@,
                ),
    {
        let nonce_v = random_bytes(24);
        let mut nonce = [0u8; 24];
        let mut i: usize = 0;
        while i < 24
            invariant
                nonce_v@.len() == 24,
                nonce@.len() == 24,
                i <= 24,
                forall|j: int| 0 <= j < i ==> nonce@[j] == nonce_v@[j],
            decreases 24 - i,
        {
            nonce[i] = nonce_v[i];
            i = i + 1;
        }
        let mut sealed = xchacha_seal(&self.session_key, &nonce, plaintext);
        let ghost sealed_view = sealed@;
        let mut out = vstd::slice::slice_to_vec(nonce.as_slice());
        out.append(&mut sealed);
        proof {
            assert(out@.take(24) =~= nonce@);
            assert(out@.skip(24) =~= sealed_view);
            assert(out@ =~= nonce@ + xchacha_seal_of(self.session_key@, nonce@, plaintext@));
        }
        out
    }

    /// Opens an encrypted payload: it must hold at least the 24-byte nonce,
    /// and the rest must authenticate under this session's key.
    pub fn open(&self, payload: &[u8]) -> (r: Result<Vec<u8>, SessionError>)
        ensures
            match r {
                Ok(p) => opened(self.session_key@, payload@) == Some(p@),
                Err(e) => e == SessionError::DecryptionFailed && opened(self.session_key@, payload@) is None,
            },
    {
        if payload.len() < XNONCE_LEN {
            return Err(SessionError::DecryptionFailed);
        }
        let mut nonce = [0u8; 24];
        let mut i: usize = 0;
        while i < 24
            invariant
                payload@.len() >= 24,
                nonce@.len() == 24,
                i <= 24,
                forall|j: int| 0 <= j < i ==> nonce@[j] == payload@[j],
            decreases 24 - i,
        {
            nonce[i] = payload[i];
            i = i + 1;
        }
        let sealed = vstd::slice::slice_subrange(payload, 24, payload.len());
        proof {
            assert(nonce@ =~= payload@.take(24));
            assert(sealed@ =~= payload@.skip(24));
        }
        match xchacha_open(&self.session_key, &nonce, sealed) {
            Some(p) => Ok(p),
            None => Err(SessionError::DecryptionFailed),
        }
    }

    /// Sends `plaintext` as one encrypted frame.
    pub fn send_encrypted_frame(&self, pipe: &mut Pipe, plaintext: &[u8]) -> (r: Result<(), FrameError>)
        requires
            old(pipe).wf(),
            plaintext@.len() + XNONCE_LEN + TAG_LEN <= u32::MAX,
        ensures
            final(pipe).wf(),
            r is Ok,
            exists|payload: Seq<u8>, n: Seq<u8>|
                opened(self.session_key@, payload) == Some(plaintext@) && n.len() == XNONCE_LEN
                    && payload == n + #[trigger] xchacha_seal_of(self.session_key@, n, plaintext@)
                    && payload.len() == XNONCE_LEN + plaintext@.len() + TAG_LEN && #[trigger] frame_of(payload)
                    == final(pipe).pending().skip(old(pipe).pending().len() as int)
                    && final(pipe).pending() == old(pipe).pending() + frame_of(payload),
    {
        let payload = self.seal(plaintext);
        let ghost pv = payload@;
        write_frame(pipe, payload.as_slice())?;
        assert(final(pipe).pending().skip(old(pipe).pending().len() as int) =~= frame_of(pv));
        Ok(())
    }

    /// Reads one encrypted frame and returns its plaintext.
    pub fn read_encrypted_frame(&self, pipe: &mut Pipe) -> (r: Result<Vec<u8>, SessionError>)
        requires
            old(pipe).wf(),
        ensures
            final(pipe).wf(),
            match r {
                Ok(p) => exists|payload: Seq<u8>|
                    crate::frame::read_outcome(old(pipe).pending()).0 == Ok::<Seq<u8>, FrameError>(payload)
                        && #[trigger] opened(self.session_key@, payload) == Some(p@),
                Err(SessionError::Frame(e)) => crate::frame::read_outcome(old(pipe).pending()).0 == Err::<
                    Seq<u8>,
                    FrameError,
                >(e),
                Err(SessionError::DecryptionFailed) => exists|payload: Seq<u8>|
                    crate::frame::read_outcome(old(pipe).pending()).0 == Ok::<Seq<u8>, FrameError>(payload)
                        && #[trigger] opened(self.session_key@, payload) is None,
            },
    {
        let payload = match read_frame(pipe) {
            Ok(p) => p,
            Err(e) => return Err(SessionError::Frame(e)),
        };
        self.open(payload.as_slice())
    }
}


/// Sessions that share a key accept each other's frames: a frame written
/// for a payload that opens to `plaintext` under `key`, read back from the
/// stream, gives that payload, which opens to `plaintext`; what follows the
/// frame stays in the stream.
pub proof fn law_encrypted_frame_round_trip(key: Seq<u8>, payload: Seq<u8>, plaintext: Seq<u8>, rest: Seq<u8>)
    requires
        opened(key, payload) == Some(plaintext),
        payload.len() == XNONCE_LEN + plaintext.len() + TAG_LEN,
        plaintext.len() + XNONCE_LEN + TAG_LEN <= MAX_FRAME_LEN,
    ensures
        crate::frame::read_outcome(frame_of(payload) + rest) == (
        Ok::<Seq<u8>, FrameError>(payload),
        4 + payload.len(),
        ),
        opened(key, crate::frame::read_outcome(frame_of(payload) + rest).0->Ok_0) == Some(plaintext),
        (frame_of(payload) + rest).skip(4 + payload.len() as int) == rest,
{
    crate::frame::law_frame_round_trip(payload, rest);
}

} // verus!
