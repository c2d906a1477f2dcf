//! The transfer protocol: the sender's and the receiver's state machines.
//!
//! Whoever drives the connection performs the reads and writes; each step
//! here takes what was read and returns what is to be written. On the wire,
//! in order: the initiator's handshake message, the responder's, the
//! encrypted manifest, then one encrypted frame per chunk in manifest order.
use vstd::prelude::*;

use crate::crypto::{chunk_id, chunk_id_of, same_text, TAG_LEN, XNONCE_LEN};
use crate::encoding::texts_of;
use crate::frame::{frame_of, read_frame, read_outcome, write_frame, FrameError, Pipe, MAX_FRAME_LEN};
use crate::handshake::{
    hello_nonce, hello_of, initiator_finish, key_view, opened, responder_reply, session_key_of,
    signature_refused, start, HandshakeError, Pending, Session, HELLO_LEN,
};
use crate::keys::Identity;
use crate::manifest::{
    chunk_windows, law_manifest_closure, manifest_encoding, manifest_of, signed_by, verification,
    Manifest, ManifestView,
};
use crate::storage::{content_addressed, MemoryStorage, StoreError};

verus! {

/// Why a transfer failed.
#[derive(Debug, Clone, Copy, PartialEq, Eq, Structural)]
pub enum TransferError {
    /// Reading or writing a frame failed.
    Frame(FrameError),
    /// The handshake failed.
    Handshake(HandshakeError),
    /// An encrypted frame did not authenticate.
    DecryptionFailed,
    /// The manifest frame does not hold an encoded manifest.
    MalformedManifest,
    /// The manifest's signature is absent, malformed or invalid.
    InvalidSignature,
    /// A chunk listed in the manifest is not in the sender's store.
    ChunkMissing,
    /// A chunk needed for assembly is not in the receiver's store.
    MissingChunk,
    /// The chunk store failed.
    Store(StoreError),
}

/// The largest plaintext that fits one encrypted frame.
pub const MAX_PLAINTEXT_LEN: usize = MAX_FRAME_LEN - XNONCE_LEN - TAG_LEN;

/// The sender during the handshake.
pub struct SenderHandshake {
    manifest: Manifest,
    pending: Pending,
}

/// The sender once the session is up: it sends the chunks in manifest order.
pub struct Sender {
    manifest: Manifest,
    session: Session,
    next: usize,
}

impl SenderHandshake {
    /// The manifest being sent.
    pub closed spec fn manifest_view(&self) -> ManifestView {
        self.manifest@
    }

    /// Our handshake nonce.
    pub closed spec fn nonce(&self) -> Seq<u8> {
        self.pending.nonce()
    }

    /// Signs the manifest with `identity` and starts the handshake as
    /// initiator. Returns the message to send.
    pub fn begin(manifest: Manifest, identity: &Identity) -> (r: (SenderHandshake, Vec<u8>))
        ensures
            r.0.manifest_view() == signed_by(manifest@, identity.secret()),
            verification(r.0.manifest_view()) == Ok::<(), crate::manifest::ManifestError>(()),
            r.1@.len() == HELLO_LEN,
            exists|x_pub: Seq<u8>| r.1@ == #[trigger] hello_of(x_pub, r.0.nonce(), identity.secret()),
    {
        let mut manifest = manifest;
        manifest.sign(identity);
        let (pending, hello) = start(identity);
        let ghost x_pub = pending.x_pub();
        let r = (SenderHandshake { manifest, pending }, hello);
        assert(r.1@ == hello_of(x_pub, r.0.nonce(), identity.secret()));
        r
    }

    /// Completes the handshake with the responder's message, then returns
    /// the sender and the encrypted manifest to send.
    pub fn complete(self, peer_msg: &[u8], peer_key: Option<&[u8; 32]>) -> (r: Result<(Sender, Vec<u8>), TransferError>)
        ensures
            (r == Err::<(Sender, Vec<u8>), TransferError>(
                TransferError::Handshake(HandshakeError::TooShort),
            )) <==> peer_msg@.len() < HELLO_LEN,
            (r == Err::<(Sender, Vec<u8>), TransferError>(
                TransferError::Handshake(HandshakeError::BadPeerSignature),
            )) <==> (peer_msg@.len() >= HELLO_LEN && signature_refused(peer_msg@, key_view(peer_key))),
            (r == Err::<(Sender, Vec<u8>), TransferError>(
                TransferError::Frame(FrameError::FrameTooLarge),
            )) ==> manifest_encoding(self.manifest_view()).len() > MAX_PLAINTEXT_LEN,
            manifest_encoding(self.manifest_view()).len() > MAX_PLAINTEXT_LEN ==> r is Err,
            r matches Ok((s, payload)) ==> {
                &&& s.manifest_view() == self.manifest_view()
                &&& s.next() == 0
                &&& exists|shared: Seq<u8>|
                    s.session_key() == #[trigger] session_key_of(shared, self.nonce(), hello_nonce(peer_msg@))
                &&& opened(s.session_key(), payload@) == Some(manifest_encoding(self.manifest_view()))
                &&& payload@.len() <= MAX_FRAME_LEN
            },
            r matches Err(e) ==> e == TransferError::Handshake(HandshakeError::TooShort) || e
                == TransferError::Handshake(HandshakeError::BadPeerSignature) || e
                == TransferError::Handshake(HandshakeError::WeakSharedSecret) || e
                == TransferError::Frame(FrameError::FrameTooLarge),
    {
        let ghost nonce = self.nonce();
        let session = match initiator_finish(self.pending, peer_msg, peer_key) {
            Ok(s) => s,
            Err(e) => return Err(TransferError::Handshake(e)),
        };
        let bytes = self.manifest.encode();
        if bytes.len() > MAX_PLAINTEXT_LEN {
            return Err(TransferError::Frame(FrameError::FrameTooLarge));
        }
        let payload = session.seal(bytes.as_slice());
        Ok((Sender { manifest: self.manifest, session, next: 0 }, payload))
    }
}

impl Sender {
    /// The manifest being sent.
    pub closed spec fn manifest_view(&self) -> ManifestView {
        self.manifest@
    }

    /// The session key.
    pub closed spec fn session_key(&self) -> Seq<u8> {
        self.session.session_key@
    }

    /// How many chunks have been sent.
    pub closed spec fn next(&self) -> nat {
        self.next as nat
    }

    /// Whether every chunk has been sent.
    pub fn is_done(&self) -> (r: bool)
        ensures
            r == (self.next() >= self.manifest_view().chunk_hashes.len()),
    {
        self.next >= self.manifest.chunk_hashes.len()
    }

    /// The id of the chunk to send next, or `None` when all are sent.
    pub fn next_chunk_id(&self) -> (r: Option<String>)
        ensures
            match r {
                Some(id) => self.next() < self.manifest_view().chunk_hashes.len() && id@
                    == self.manifest_view().chunk_hashes[self.next() as int],
                None => self.next() >= self.manifest_view().chunk_hashes.len(),
            },
    {
        if self.next < self.manifest.chunk_hashes.len() {
            Some(self.manifest.chunk_hashes[self.next].clone())
        } else {
            None
        }
    }

    /// Takes the sender's store lookup for the next chunk and returns the
    /// encrypted frame payload to send. A chunk absent from the store is
    /// fatal.
    pub fn send_chunk(&mut self, data: Option<Vec<u8>>) -> (r: Result<Vec<u8>, TransferError>)
        requires
            old(self).next() < old(self).manifest_view().chunk_hashes.len(),
        ensures
            final(self).manifest_view() == old(self).manifest_view(),
            final(self).session_key() == old(self).session_key(),
            match data {
                None => r == Err::<Vec<u8>, TransferError>(TransferError::ChunkMissing)
                    && final(self).next() == old(self).next(),
                Some(d) => if d@.len() > MAX_PLAINTEXT_LEN {
                    r == Err::<Vec<u8>, TransferError>(TransferError::Frame(FrameError::FrameTooLarge))
                        && final(self).next() == old(self).next()
                } else {
                    r matches Ok(payload) && opened(old(self).session_key(), payload@) == Some(d@)
                        && payload@.len() <= MAX_FRAME_LEN && final(self).next() == old(self).next() + 1
                },
            },
    {
        match data {
            None => Err(TransferError::ChunkMissing),
            Some(d) => {
                if d.len() > MAX_PLAINTEXT_LEN {
                    return Err(TransferError::Frame(FrameError::FrameTooLarge));
                }
                let payload = self.session.seal(d.as_slice());
                let count = self.manifest.chunk_hashes.len();
                assert(self.next < count);
                self.next = self.next + 1;
                Ok(payload)
            },
        }
    }
}

/// The receiver once the handshake is done, waiting for the manifest.
pub struct ReceiverHandshake {
    session: Session,
}

/// The receiver reading chunks.
pub struct Receiver {
    manifest: Manifest,
    session: Session,
    next: usize,
}

/// What became of a received chunk.
pub enum ChunkVerdict {
    /// It hashes to the id the manifest expects: store it.
    Matched(Vec<u8>),
    /// It does not: it is not to be stored.
    Mismatched(Vec<u8>),
}

/// What the receiver does with the manifest frame's plaintext: decode,
/// then check the signature.
pub open spec fn manifest_accepted(bytes: Seq<u8>, m: ManifestView) -> bool {
    manifest_encoding(m) == bytes && verification(m) is Ok
}

impl ReceiverHandshake {
    /// The session key.
    pub closed spec fn session_key(&self) -> Seq<u8> {
        self.session.session_key@
    }

    /// Answers the initiator's handshake message as responder. Returns the
    /// receiver and the message to send back.
    pub fn respond(identity: &Identity, peer_msg: &[u8], peer_key: Option<&[u8; 32]>) -> (r: Result<(ReceiverHandshake, Vec<u8>), TransferError>)
        ensures
            (r matches Err(e) && e == TransferError::Handshake(HandshakeError::TooShort)) <==> peer_msg@.len()
                < HELLO_LEN,
            (r matches Err(e) && e == TransferError::Handshake(HandshakeError::BadPeerSignature)) <==> (
            peer_msg@.len() >= HELLO_LEN && signature_refused(peer_msg@, key_view(peer_key))),
            r matches Err(e) ==> e == TransferError::Handshake(HandshakeError::TooShort) || e
                == TransferError::Handshake(HandshakeError::BadPeerSignature) || e
                == TransferError::Handshake(HandshakeError::WeakSharedSecret),
            r matches Ok((rh, reply)) ==> reply@.len() == HELLO_LEN && exists|
                x_pub: Seq<u8>,
                nonce: Seq<u8>,
                shared: Seq<u8>,
            |
                x_pub.len() == 32 && nonce.len() == 32 && reply@ == #[trigger] hello_of(x_pub, nonce, identity.secret()) && rh.session_key()
                    == #[trigger] session_key_of(shared, hello_nonce(peer_msg@), nonce),
    {
        match responder_reply(identity, peer_msg, peer_key) {
            Ok((session, reply)) => Ok((ReceiverHandshake { session }, reply)),
            Err(e) => Err(TransferError::Handshake(e)),
        }
    }

    /// Takes the manifest frame's payload: it must decrypt, decode and carry
    /// a valid signature.
    pub fn accept_manifest(self, payload: &[u8]) -> (r: Result<Receiver, TransferError>)
        ensures
            match opened(self.session_key(), payload@) {
                None => r == Err::<Receiver, TransferError>(TransferError::DecryptionFailed),
                Some(bytes) => {
                    &&& (forall|m: ManifestView| manifest_encoding(m) != bytes) ==> r == Err::<
                        Receiver,
                        TransferError,
                    >(TransferError::MalformedManifest)
                    &&& (exists|m: ManifestView| #[trigger] manifest_encoding(m) == bytes
                        && verification(m) is Err) ==> r == Err::<Receiver, TransferError>(
                        TransferError::InvalidSignature,
                    )
                    &&& r matches Ok(rc) ==> manifest_accepted(bytes, rc.manifest_view())
                        && rc.next() == 0 && rc.session_key() == self.session_key() && forall|
                        m: ManifestView,
                    | #[trigger] manifest_encoding(m) == bytes ==> m == rc.manifest_view()
                    &&& r matches Err(e) ==> (e == TransferError::MalformedManifest || e
                        == TransferError::InvalidSignature)
                    &&& (exists|m: ManifestView| #[trigger] manifest_accepted(bytes, m)) ==> r is Ok
                },
            },
    {
        let bytes = match self.session.open(payload) {
            Ok(b) => b,
            Err(_) => return Err(TransferError::DecryptionFailed),
        };
        let manifest = match Manifest::decode(bytes.as_slice()) {
            Some(m) => m,
            None => return Err(TransferError::MalformedManifest),
        };
        if manifest.verify().is_err() {
            return Err(TransferError::InvalidSignature);
        }
        Ok(Receiver { manifest, session: self.session, next: 0 })
    }
}

impl Receiver {
    /// The manifest received.
    pub closed spec fn manifest_view(&self) -> ManifestView {
        self.manifest@
    }

    /// The session key.
    pub closed spec fn session_key(&self) -> Seq<u8> {
        self.session.session_key@
    }

    /// How many chunk frames have been taken.
    pub closed spec fn next(&self) -> nat {
        self.next as nat
    }

    /// The manifest received.
    pub fn manifest(&self) -> (r: &Manifest)
        ensures
            r@ == self.manifest_view(),
    {
        &self.manifest
    }

    /// Gives up the receiver for its manifest.
    pub fn into_manifest(self) -> (r: Manifest)
        ensures
            r@ == self.manifest_view(),
    {
        self.manifest
    }

    /// Whether every chunk frame has been taken.
    pub fn is_done(&self) -> (r: bool)
        ensures
            r == (self.next() >= self.manifest_view().chunk_hashes.len()),
    {
        self.next >= self.manifest.chunk_hashes.len()
    }

    /// Takes the next chunk frame's payload: it must decrypt; the chunk is
    /// matched against the id the manifest lists at this position.
    pub fn take_chunk(&mut self, payload: &[u8]) -> (r: Result<ChunkVerdict, TransferError>)
        requires
            old(self).next() < old(self).manifest_view().chunk_hashes.len(),
        ensures
            final(self).manifest_view() == old(self).manifest_view(),
            final(self).session_key() == old(self).session_key(),
            match r {
                Ok(ChunkVerdict::Matched(d)) => opened(old(self).session_key(), payload@) == Some(d@)
                    && chunk_id_of(d@) == old(self).manifest_view().chunk_hashes[old(self).next() as int]
                    && final(self).next() == old(self).next() + 1,
                Ok(ChunkVerdict::Mismatched(d)) => opened(old(self).session_key(), payload@) == Some(d@)
                    && chunk_id_of(d@) != old(self).manifest_view().chunk_hashes[old(self).next() as int]
                    && final(self).next() == old(self).next() + 1,
                Err(e) => e == TransferError::DecryptionFailed && opened(old(self).session_key(), payload@)
                    is None && final(self).next() == old(self).next(),
            },
    {
        let data = match self.session.open(payload) {
            Ok(d) => d,
            Err(_) => return Err(TransferError::DecryptionFailed),
        };
        let id = chunk_id(data.as_slice());
        let count = self.manifest.chunk_hashes.len();
        assert(self.next < count);
        let expected = same_text(id.as_str(), self.manifest.chunk_hashes[self.next].as_str());
        self.next = self.next + 1;
        if expected {
            Ok(ChunkVerdict::Matched(data))
        } else {
            Ok(ChunkVerdict::Mismatched(data))
        }
    }
}

/// The file the chunks listed by `ids` make up, or `None` if one is absent.
pub open spec fn assembled(ids: Seq<Seq<char>>, chunks: Map<Seq<char>, Seq<u8>>) -> Option<Seq<u8>>
    decreases ids.len(),
{
    if ids.len() == 0 {
        Some(Seq::empty())
    } else {
        match assembled(ids.drop_last(), chunks) {
            Some(front) => if chunks.contains_key(ids.last()) {
                Some(front + chunks[ids.last()])
            } else {
                None
            },
            None => None,
        }
    }
}

/// Concatenates the chunks the manifest lists, in order, from the store.
pub fn assemble(manifest: &Manifest, store: &MemoryStorage) -> (r: Result<Vec<u8>, TransferError>)
    ensures
        match assembled(manifest@.chunk_hashes, store.chunks()) {
            Some(out) => r matches Ok(v) && v@ == out,
            None => r == Err::<Vec<u8>, TransferError>(TransferError::MissingChunk),
        },
{
    let ghost ids = manifest@.chunk_hashes;
    let mut out: Vec<u8> = Vec::new();
    let mut i: usize = 0;
    while i < manifest.chunk_hashes.len()
        invariant
            i <= manifest.chunk_hashes@.len(),
            ids == texts_of(manifest.chunk_hashes@),
            assembled(ids.take(i as int), store.chunks()) == Some(out@),
        decreases manifest.chunk_hashes@.len() - i,
    {
        assert(ids.take(i as int + 1).drop_last() =~= ids.take(i as int));
        match store.get(manifest.chunk_hashes[i].as_str()) {
            Some(mut d) => {
                out.append(&mut d);
            },
            None => {
                proof {
                    lemma_assembled_missing(ids, store.chunks(), i as int + 1);
                }
                return Err(TransferError::MissingChunk);
            },
        }
        i = i + 1;
    }
    assert(ids.take(i as int) =~= ids);
    Ok(out)
}

proof fn lemma_assembled_missing(ids: Seq<Seq<char>>, chunks: Map<Seq<char>, Seq<u8>>, k: int)
    requires
        0 <= k <= ids.len(),
        assembled(ids.take(k), chunks) is None,
    ensures
        assembled(ids, chunks) is None,
    decreases ids.len() - k,
{
    if k < ids.len() {
        assert(ids.take(k + 1).drop_last() =~= ids.take(k));
        lemma_assembled_missing(ids, chunks, k + 1);
    } else {
        assert(ids.take(k) =~= ids);
    }
}


/// In a store where every chunk is filed under its own id, an assembled
/// file is the concatenation of the listed chunks, each of which hashes to
/// the id listed at its position.
pub proof fn law_assembled_chunks_match_ids(ids: Seq<Seq<char>>, chunks: Map<Seq<char>, Seq<u8>>)
    requires
        content_addressed(chunks),
        assembled(ids, chunks) is Some,
    ensures
        forall|i: int| 0 <= i < ids.len() ==> #[trigger] chunks.contains_key(ids[i]) && chunk_id_of(chunks[ids[i]]) == ids[i],
        assembled(ids, chunks) == Some(ids.map_values(|id: Seq<char>| chunks[id]).flatten_alt()),
    decreases ids.len(),
{
    if ids.len() > 0 {
        let front = ids.drop_last();
        law_assembled_chunks_match_ids(front, chunks);
        assert(ids.map_values(|id: Seq<char>| chunks[id]).drop_last() =~= front.map_values(
            |id: Seq<char>| chunks[id],
        ));
        assert forall|i: int| 0 <= i < ids.len() implies #[trigger] chunks.contains_key(ids[i]) && chunk_id_of(chunks[ids[i]]) == ids[i] by {
            if i < ids.len() - 1 {
                assert(front[i] == ids[i]);
            }
        }
    } else {
        assert(ids.map_values(|id: Seq<char>| chunks[id]) =~= Seq::<Seq<u8>>::empty());
    }
}

/// Receiving files only chunks whose id matches, so a store where every
/// chunk sits under its own id stays so.
pub proof fn law_receive_keeps_store_content_addressed(
    key: Seq<u8>,
    ids: Seq<Seq<char>>,
    i: int,
    s: Seq<u8>,
    chunks: Map<Seq<char>, Seq<u8>>,
)
    requires
        content_addressed(chunks),
    ensures
        content_addressed(receive_chunks(key, ids, i, s, chunks).1),
    decreases ids.len() - i,
{
    if 0 <= i < ids.len() {
        let rest = s.skip(read_outcome(s).1 as int);
        match read_outcome(s).0 {
            Err(_) => {},
            Ok(p) => match opened(key, p) {
                None => {},
                Some(d) => {
                    let next = if chunk_id_of(d) == ids[i] {
                        chunks.insert(ids[i], d)
                    } else {
                        chunks
                    };
                    assert(content_addressed(next));
                    law_receive_keeps_store_content_addressed(key, ids, i + 1, rest, next);
                },
            },
        }
    }
}

/// A store that holds every chunk of a file under its id gives the file
/// back when the chunks its manifest lists are concatenated in order.
pub proof fn law_assembly_restores_file(
    filename: Seq<char>,
    data: Seq<u8>,
    cs: nat,
    chunks: Map<Seq<char>, Seq<u8>>,
)
    requires
        cs > 0,
        data.len() <= u64::MAX,
        forall|i: int|
            0 <= i < chunk_windows(data, cs).len() ==> chunks.contains_key(
                chunk_id_of(#[trigger] chunk_windows(data, cs)[i]),
            ) && chunks[chunk_id_of(chunk_windows(data, cs)[i])] == chunk_windows(data, cs)[i],
    ensures
        assembled(manifest_of(filename, data, cs).chunk_hashes, chunks) == Some(data),
{
    let w = chunk_windows(data, cs);
    let ids = manifest_of(filename, data, cs).chunk_hashes;
    law_manifest_closure(filename, data, cs);
    assert forall|k: int| 0 <= k <= w.len() implies #[trigger] assembled(ids.take(k), chunks) == Some(
        w.take(k).flatten_alt(),
    ) by {
        lemma_assembled_prefix(ids, w, chunks, k);
    }
    assert(ids.take(w.len() as int) =~= ids);
    assert(w.take(w.len() as int) =~= w);
    w.lemma_flatten_and_flatten_alt_are_equivalent();
}

proof fn lemma_assembled_prefix(
    ids: Seq<Seq<char>>,
    w: Seq<Seq<u8>>,
    chunks: Map<Seq<char>, Seq<u8>>,
    k: int,
)
    requires
        ids.len() == w.len(),
        0 <= k <= w.len(),
        forall|i: int| 0 <= i < w.len() ==> #[trigger] ids[i] == chunk_id_of(w[i]),
        forall|i: int|
            0 <= i < w.len() ==> chunks.contains_key(chunk_id_of(#[trigger] w[i])) && chunks[chunk_id_of(
                w[i],
            )] == w[i],
    ensures
        assembled(ids.take(k), chunks) == Some(w.take(k).flatten_alt()),
    decreases k,
{
    if k == 0 {
        assert(ids.take(0) =~= Seq::<Seq<char>>::empty());
        assert(w.take(0) =~= Seq::<Seq<u8>>::empty());
    } else {
        lemma_assembled_prefix(ids, w, chunks, k - 1);
        assert(ids.take(k).drop_last() =~= ids.take(k - 1));
        assert(w.take(k).drop_last() =~= w.take(k - 1));
        assert(ids.take(k).last() == ids[k - 1]);
        assert(w.take(k).last() == w[k - 1]);
        assert(ids[k - 1] == chunk_id_of(w[k - 1]));
    }
}


/// The responder's part of the handshake over in-memory pipes: reads the
/// initiator's message from `inp` and writes the answer to `out`.
pub fn answer(identity: &Identity, inp: &mut Pipe, out: &mut Pipe, peer_key: Option<&[u8; 32]>) -> (r: Result<ReceiverHandshake, TransferError>)
    requires
        old(inp).wf(),
        old(out).wf(),
    ensures
        final(inp).wf(),
        final(out).wf(),
        final(inp).pending() == old(inp).pending().skip(read_outcome(old(inp).pending()).1 as int),
        match read_outcome(old(inp).pending()).0 {
            Err(e) => r == Err::<ReceiverHandshake, TransferError>(TransferError::Frame(e))
                && final(out).pending() == old(out).pending(),
            Ok(hello) => {
                &&& (r matches Err(e) && e == TransferError::Handshake(HandshakeError::TooShort))
                    <==> hello.len() < HELLO_LEN
                &&& (r matches Err(e) && e == TransferError::Handshake(HandshakeError::BadPeerSignature))
                    <==> (hello.len() >= HELLO_LEN && signature_refused(hello, key_view(peer_key)))
                &&& (r matches Err(e) ==> final(out).pending() == old(out).pending() && (e
                    == TransferError::Handshake(HandshakeError::TooShort) || e
                    == TransferError::Handshake(HandshakeError::BadPeerSignature) || e
                    == TransferError::Handshake(HandshakeError::WeakSharedSecret)))
                &&& (r matches Ok(rh) ==> exists|x_pub: Seq<u8>, nonce: Seq<u8>, shared: Seq<u8>|
                    x_pub.len() == 32 && nonce.len() == 32 && final(out).pending() == old(
                        out,
                    ).pending() + frame_of(#[trigger] hello_of(x_pub, nonce, identity.secret()))
                        && rh.session_key() == #[trigger] session_key_of(
                        shared,
                        hello_nonce(hello),
                        nonce,
                    ))
            },
        },
{
    let hello = match read_frame(inp) {
        Ok(h) => h,
        Err(e) => return Err(TransferError::Frame(e)),
    };
    let (rh, reply) = ReceiverHandshake::respond(identity, hello.as_slice(), peer_key)?;
    match write_frame(out, reply.as_slice()) {
        Ok(()) => {
            proof {
                let (x, n, sh) = choose|x_pub: Seq<u8>, nonce: Seq<u8>, shared: Seq<u8>|
                    x_pub.len() == 32 && nonce.len() == 32 && reply@ == #[trigger] hello_of(
                        x_pub,
                        nonce,
                        identity.secret(),
                    ) && rh.session_key() == #[trigger] session_key_of(shared, hello_nonce(hello@), nonce);
                assert(out.pending() == old(out).pending() + frame_of(hello_of(x, n, identity.secret())));
                assert(rh.session_key() == session_key_of(sh, hello_nonce(hello@), n));
                assert(read_outcome(old(inp).pending()).0 == Ok::<Seq<u8>, FrameError>(hello@));
                assert(read_outcome(old(inp).pending()).0->Ok_0 == hello@);
                assert(exists|x_pub: Seq<u8>, nonce: Seq<u8>, shared: Seq<u8>|
                    x_pub.len() == 32 && nonce.len() == 32 && out.pending() == old(out).pending()
                        + frame_of(#[trigger] hello_of(x_pub, nonce, identity.secret()))
                        && rh.session_key() == #[trigger] session_key_of(
                        shared,
                        hello_nonce(read_outcome(old(inp).pending()).0->Ok_0),
                        nonce,
                    ));
            }
            Ok(rh)
        },
        Err(e) => Err(TransferError::Frame(e)),
    }
}

/// The frames that carry `ps`, one after another.
pub open spec fn frames_of(ps: Seq<Seq<u8>>) -> Seq<u8>
    decreases ps.len(),
{
    if ps.len() == 0 {
        Seq::empty()
    } else {
        frames_of(ps.drop_last()) + frame_of(ps.last())
    }
}

/// `ps` are the payloads the sender writes for the manifest `m` and its
/// first `k` chunks, under a session key derived with our nonce `nonce` and
/// the responder's message `reply`: the first opens to the manifest's
/// encoding, the next `k` to the stored bytes of the listed ids, in order.
pub open spec fn sent_payloads(
    ps: Seq<Seq<u8>>,
    m: ManifestView,
    nonce: Seq<u8>,
    reply: Seq<u8>,
    chunks: Map<Seq<char>, Seq<u8>>,
    k: int,
) -> bool {
    &&& ps.len() == k + 1
    &&& exists|shared: Seq<u8>|
        #[trigger] payloads_open(ps, session_key_of(shared, nonce, hello_nonce(reply)), m, chunks, k)
}

/// Under `key`, the first payload opens to the manifest's encoding and the
/// next `k` to the stored bytes of the listed ids, in order.
pub open spec fn payloads_open(
    ps: Seq<Seq<u8>>,
    key: Seq<u8>,
    m: ManifestView,
    chunks: Map<Seq<char>, Seq<u8>>,
    k: int,
) -> bool {
    &&& opened(key, ps[0]) == Some(manifest_encoding(m))
    &&& forall|j: int| 0 <= j < k ==> opened(key, #[trigger] ps[j + 1]) == Some(chunks[m.chunk_hashes[j]])
}

/// The sender's part after its handshake message went out, over in-memory
/// pipes: reads the responder's message from `inp`, then writes the
/// encrypted manifest and every chunk, in manifest order, to `out`. A chunk
/// absent from `store` is fatal, and nothing is written for it or later ones.
pub fn send_all(
    hs: SenderHandshake,
    store: &MemoryStorage,
    inp: &mut Pipe,
    out: &mut Pipe,
    peer_key: Option<&[u8; 32]>,
) -> (r: Result<(), TransferError>)
    requires
        old(inp).wf(),
        old(out).wf(),
    ensures
        final(inp).wf(),
        final(out).wf(),
        final(inp).pending() == old(inp).pending().skip(read_outcome(old(inp).pending()).1 as int),
        ({
            let m = hs.manifest_view();
            let ids = m.chunk_hashes;
            match read_outcome(old(inp).pending()).0 {
                Err(e) => r == Err::<(), TransferError>(TransferError::Frame(e)) && final(out).pending()
                    == old(out).pending(),
                Ok(reply) => {
                    &&& (r == Err::<(), TransferError>(TransferError::Handshake(HandshakeError::TooShort)))
                        <==> reply.len() < HELLO_LEN
                    &&& (r == Err::<(), TransferError>(
                        TransferError::Handshake(HandshakeError::BadPeerSignature),
                    )) <==> (reply.len() >= HELLO_LEN && signature_refused(reply, key_view(peer_key)))
                    &&& r is Ok ==> (forall|i: int|
                        0 <= i < ids.len() ==> store.chunks().contains_key(#[trigger] ids[i]))
                        && exists|ps: Seq<Seq<u8>>|
                        sent_payloads(ps, m, hs.nonce(), reply, store.chunks(), ids.len() as int)
                            && final(out).pending() == old(out).pending() + #[trigger] frames_of(ps)
                    &&& r == Err::<(), TransferError>(TransferError::ChunkMissing) ==> exists|i: int|
                        0 <= i < ids.len() && !store.chunks().contains_key(#[trigger] ids[i]) && (
                        forall|j: int| 0 <= j < i ==> store.chunks().contains_key(#[trigger] ids[j]))
                            && exists|ps: Seq<Seq<u8>>|
                            sent_payloads(ps, m, hs.nonce(), reply, store.chunks(), i)
                                && final(out).pending() == old(out).pending() + #[trigger] frames_of(
                                ps,
                            )
                },
            }
        }),
{
    let ghost m = hs.manifest_view();
    let ghost ids = m.chunk_hashes;
    let ghost nonce = hs.nonce();
    let ghost start = out.pending();
    let reply = match read_frame(inp) {
        Ok(x) => x,
        Err(e) => return Err(TransferError::Frame(e)),
    };
    let (mut sender, payload) = hs.complete(reply.as_slice(), peer_key)?;
    let ghost key = sender.session_key();
    let ghost shared = choose|shared: Seq<u8>|
        key == #[trigger] session_key_of(shared, nonce, hello_nonce(reply@));
    if let Err(e) = write_frame(out, payload.as_slice()) {
        return Err(TransferError::Frame(e));
    }
    let ghost mut ps: Seq<Seq<u8>> = seq![payload@];
    proof {
        assert(ps.drop_last() =~= Seq::<Seq<u8>>::empty());
        assert(frames_of(ps.drop_last()) == Seq::<u8>::empty());
        assert(ps.last() == payload@);
        assert(frames_of(ps) =~= frame_of(payload@));
    }
    while !sender.is_done()
        invariant
            inp.wf(),
            out.wf(),
            sender.manifest_view() == m,
            sender.session_key() == key,
            ids == m.chunk_hashes,
            ids == hs.manifest_view().chunk_hashes,
            m == hs.manifest_view(),
            nonce == hs.nonce(),
            key == session_key_of(shared, nonce, hello_nonce(reply@)),
            sender.next() <= ids.len(),
            ps.len() == sender.next() + 1,
            payloads_open(ps, key, m, store.chunks(), sender.next() as int),
            out.pending() == start + frames_of(ps),
            start == old(out).pending(),
            forall|i: int| 0 <= i < sender.next() ==> store.chunks().contains_key(#[trigger] ids[i]),
            inp.pending() == old(inp).pending().skip(read_outcome(old(inp).pending()).1 as int),
            read_outcome(old(inp).pending()).0 == Ok::<Seq<u8>, FrameError>(reply@),
            reply@.len() >= HELLO_LEN,
            !signature_refused(reply@, key_view(peer_key)),
        decreases ids.len() - sender.next(),
    {
        let id = match sender.next_chunk_id() {
            Some(id) => id,
            None => return Err(TransferError::ChunkMissing),
        };
        let data = store.get(id.as_str());
        let ghost at = sender.next() as int;
        let payload = match sender.send_chunk(data) {
            Ok(p) => p,
            Err(e) => {
                proof {
                    if e == TransferError::ChunkMissing {
                        assert(!store.chunks().contains_key(ids[at]));
                        assert(payloads_open(ps, session_key_of(shared, nonce, hello_nonce(reply@)), m, store.chunks(), at));
                        assert(sent_payloads(ps, m, nonce, reply@, store.chunks(), at));
                    }
                }
                return Err(e);
            },
        };
        let ghost before = out.pending();
        if let Err(e) = write_frame(out, payload.as_slice()) {
            return Err(TransferError::Frame(e));
        }
        proof {
            let old_ps = ps;
            ps = ps.push(payload@);
            assert(ps.drop_last() =~= old_ps);
            assert(out.pending() =~= start + frames_of(ps));
            assert(store.chunks().contains_key(ids[at]));
        }
    }
    proof {
        assert(payloads_open(ps, session_key_of(shared, nonce, hello_nonce(reply@)), m, store.chunks(), ids.len() as int));
        assert(sent_payloads(ps, m, nonce, reply@, store.chunks(), ids.len() as int));
    }
    Ok(())
}

/// What taking the chunk frames for positions `i..` of `ids` from the
/// stream `s` yields, starting from the store `chunks`: the outcome, the
/// store after it, and the rest of the stream. A frame that opens to bytes
/// whose id is the one listed at its position is filed; one that opens to
/// other bytes is left out.
pub open spec fn receive_chunks(
    key: Seq<u8>,
    ids: Seq<Seq<char>>,
    i: int,
    s: Seq<u8>,
    chunks: Map<Seq<char>, Seq<u8>>,
) -> (Result<(), TransferError>, Map<Seq<char>, Seq<u8>>, Seq<u8>)
    decreases ids.len() - i,
{
    if i < 0 || i >= ids.len() {
        (Ok(()), chunks, s)
    } else {
        let rest = s.skip(read_outcome(s).1 as int);
        match read_outcome(s).0 {
            Err(e) => (Err(TransferError::Frame(e)), chunks, rest),
            Ok(p) => match opened(key, p) {
                None => (Err(TransferError::DecryptionFailed), chunks, rest),
                Some(d) => receive_chunks(
                    key,
                    ids,
                    i + 1,
                    rest,
                    if chunk_id_of(d) == ids[i] {
                        chunks.insert(ids[i], d)
                    } else {
                        chunks
                    },
                ),
            },
        }
    }
}

/// The receiver's part after the handshake, over in-memory pipes: reads the
/// manifest frame, then exactly one chunk frame per listed id. Chunks whose
/// id matches their position are filed in `store`; the others are left out,
/// so that assembling the file later fails. Returns the manifest read.
pub fn receive_all(rh: ReceiverHandshake, inp: &mut Pipe, store: &mut MemoryStorage) -> (r: Result<Manifest, TransferError>)
    requires
        old(inp).wf(),
    ensures
        final(inp).wf(),
        ({
            let s = old(inp).pending();
            let rest = s.skip(read_outcome(s).1 as int);
            match read_outcome(s).0 {
                Err(e) => r == Err::<Manifest, TransferError>(TransferError::Frame(e))
                    && final(store).chunks() == old(store).chunks() && final(inp).pending() == rest,
                Ok(p) => match opened(rh.session_key(), p) {
                    None => r == Err::<Manifest, TransferError>(TransferError::DecryptionFailed)
                        && final(store).chunks() == old(store).chunks() && final(inp).pending()
                        == rest,
                    Some(bytes) => {
                        &&& (forall|m: ManifestView| manifest_encoding(m) != bytes) ==> (r
                            == Err::<Manifest, TransferError>(TransferError::MalformedManifest)
                            && final(store).chunks() == old(store).chunks())
                        &&& (exists|m: ManifestView| #[trigger] manifest_encoding(m) == bytes
                            && verification(m) is Err) ==> (r == Err::<Manifest, TransferError>(
                            TransferError::InvalidSignature,
                        ) && final(store).chunks() == old(store).chunks())
                        &&& forall|m: ManifestView| #[trigger]
                            manifest_accepted(bytes, m) ==> ({
                                let out = receive_chunks(
                                    rh.session_key(),
                                    m.chunk_hashes,
                                    0,
                                    rest,
                                    old(store).chunks(),
                                );
                                &&& final(store).chunks() == out.1
                                &&& final(inp).pending() == out.2
                                &&& match out.0 {
                                    Ok(_) => r matches Ok(mm) && mm@ == m,
                                    Err(e) => r == Err::<Manifest, TransferError>(e),
                                }
                            })
                    },
                },
            }
        }),
{
    let ghost key = rh.session_key();
    let ghost s = inp.pending();
    let payload = match read_frame(inp) {
        Ok(p) => p,
        Err(e) => return Err(TransferError::Frame(e)),
    };
    let ghost rest = inp.pending();
    let mut receiver = match rh.accept_manifest(payload.as_slice()) {
        Ok(rc) => rc,
        Err(e) => return Err(e),
    };
    let ghost m = receiver.manifest_view();
    let ghost ids = m.chunk_hashes;
    let ghost start = store.chunks();
    let ghost pl = payload@;
    let ghost bytes = opened(key, pl)->Some_0;
    proof {
        assert(rest == s.skip(read_outcome(s).1 as int));
        assert(opened(key, pl) == Some(bytes));
    }
    while !receiver.is_done()
        invariant
            inp.wf(),
            receiver.manifest_view() == m,
            receiver.session_key() == key,
            ids == m.chunk_hashes,
            receiver.next() <= ids.len(),
            s == old(inp).pending(),
            start == old(store).chunks(),
            rest == s.skip(read_outcome(s).1 as int),
            read_outcome(s).0 == Ok::<Seq<u8>, FrameError>(pl),
            opened(key, pl) == Some(bytes),
            key == rh.session_key(),
            manifest_accepted(bytes, m),
            forall|mm: ManifestView| #[trigger] manifest_encoding(mm) == bytes ==> mm == m,
            receive_chunks(key, ids, 0, rest, start) == receive_chunks(
                key,
                ids,
                receiver.next() as int,
                inp.pending(),
                store.chunks(),
            ),
        decreases ids.len() - receiver.next(),
    {
        let ghost i = receiver.next() as int;
        let ghost cur = inp.pending();
        let ghost before = store.chunks();
        let frame = match read_frame(inp) {
            Ok(p) => p,
            Err(e) => {
                assert(receive_chunks(key, ids, i, cur, before) == (
                    Err::<(), TransferError>(TransferError::Frame(e)),
                    before,
                    inp.pending(),
                ));
                return Err(TransferError::Frame(e));
            },
        };
        match receiver.take_chunk(frame.as_slice()) {
            Ok(ChunkVerdict::Matched(d)) => {
                let id = store.put(d.as_slice());
                assert(receive_chunks(key, ids, i, cur, before) == receive_chunks(
                    key,
                    ids,
                    i + 1,
                    inp.pending(),
                    store.chunks(),
                ));
            },
            Ok(ChunkVerdict::Mismatched(_)) => {
                assert(receive_chunks(key, ids, i, cur, before) == receive_chunks(
                    key,
                    ids,
                    i + 1,
                    inp.pending(),
                    store.chunks(),
                ));
            },
            Err(e) => {
                assert(receive_chunks(key, ids, i, cur, before) == (
                    Err::<(), TransferError>(TransferError::DecryptionFailed),
                    before,
                    inp.pending(),
                ));
                return Err(e);
            },
        }
    }
    Ok(receiver.into_manifest())
}

} // verus!
