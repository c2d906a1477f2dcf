//! File manifests: the name, size and ordered chunk ids of a file, signed by
//! the sender over their canonical encoding.
use vstd::prelude::*;

use crate::crypto::{
    bytes32, bytes64, chunk_id, chunk_id_of, ed25519_accepts, ed25519_public_of,
    ed25519_signature_of, ed25519_verify,
};
use crate::encoding::{
    enc_option, enc_text, enc_text_list, enc_u64, get_option, get_text, get_text_list, get_u64,
    holds_at, lemma_enc_u64_len, lemma_holds_split, put_option, put_text, put_text_list, put_u64, texts_of,
};
use crate::keys::Identity;
use crate::text::{decimal, decimal_text};
use vstd::string::*;

verus! {

/// Why a manifest's signature was not accepted.
#[derive(Debug, Clone, Copy, PartialEq, Eq, Structural)]
pub enum ManifestError {
    /// The signature or the signer's key is absent.
    MissingSignature,
    /// The signature is not 64 bytes, or the key not 32.
    MalformedSignature,
    /// The signature does not verify.
    InvalidSignature,
}

/// A file offered for transfer.
#[derive(Debug, Clone)]
pub struct Manifest {
    /// The file's name, without directories.
    pub filename: String,
    /// The file's length in bytes.
    pub size: u64,
    /// The ids of the file's chunks, in order.
    pub chunk_hashes: Vec<String>,
    /// The signer's Ed25519 verification key.
    pub sender_pubkey: Option<Vec<u8>>,
    /// The Ed25519 signature over the encoding with this field absent.
    pub sender_sig: Option<Vec<u8>>,
}

/// A manifest as values.
pub struct ManifestView {
    pub filename: Seq<char>,
    pub size: u64,
    pub chunk_hashes: Seq<Seq<char>>,
    pub sender_pubkey: Option<Seq<u8>>,
    pub sender_sig: Option<Seq<u8>>,
}

/// The bytes of an optional byte vector.
pub open spec fn opt_bytes(o: Option<Vec<u8>>) -> Option<Seq<u8>> {
    match o {
        None => None,
        Some(v) => Some(v@),
    }
}

impl View for Manifest {
    type V = ManifestView;

    open spec fn view(&self) -> ManifestView {
        ManifestView {
            filename: self.filename@,
            size: self.size,
            chunk_hashes: texts_of(self.chunk_hashes@),
            sender_pubkey: opt_bytes(self.sender_pubkey),
            sender_sig: opt_bytes(self.sender_sig),
        }
    }
}

/// The canonical encoding: the fields in order.
pub open spec fn manifest_encoding(m: ManifestView) -> Seq<u8> {
    enc_text(m.filename) + enc_u64(m.size) + enc_text_list(m.chunk_hashes) + enc_option(
        m.sender_pubkey,
    ) + enc_option(m.sender_sig)
}

/// The manifest with its signature cleared: what a signature covers.
pub open spec fn unsigned(m: ManifestView) -> ManifestView {
    ManifestView { sender_sig: None, ..m }
}

/// The manifest as signed with a secret key: the key's public half filled
/// in, then the signature over the unsigned encoding.
pub open spec fn signed_by(m: ManifestView, secret: Seq<u8>) -> ManifestView {
    let with_key = ManifestView {
        sender_pubkey: Some(ed25519_public_of(secret)),
        sender_sig: None,
        ..m
    };
    ManifestView {
        sender_sig: Some(ed25519_signature_of(secret, manifest_encoding(with_key))),
        ..with_key
    }
}

/// The outcome of checking a manifest's signature against its own key.
pub open spec fn verification(m: ManifestView) -> Result<(), ManifestError> {
    match (m.sender_sig, m.sender_pubkey) {
        (Some(sig), Some(key)) => {
            if sig.len() != 64 || key.len() != 32 {
                Err(ManifestError::MalformedSignature)
            } else if ed25519_accepts(key, manifest_encoding(unsigned(m)), sig) {
                Ok(())
            } else {
                Err(ManifestError::InvalidSignature)
            }
        },
        _ => Err(ManifestError::MissingSignature),
    }
}

/// The outcome of checking a manifest's signature against a given key.
pub open spec fn verification_with(m: ManifestView, key: Seq<u8>) -> Result<(), ManifestError> {
    match m.sender_sig {
        Some(sig) => {
            if sig.len() != 64 {
                Err(ManifestError::MalformedSignature)
            } else if ed25519_accepts(key, manifest_encoding(unsigned(m)), sig) {
                Ok(())
            } else {
                Err(ManifestError::InvalidSignature)
            }
        },
        None => Err(ManifestError::MissingSignature),
    }
}

/// A file's bytes cut into windows of `cs` bytes; only the last may be
/// shorter, and an empty file has none.
pub open spec fn chunk_windows(data: Seq<u8>, cs: nat) -> Seq<Seq<u8>>
    decreases data.len(),
{
    if data.len() == 0 || cs == 0 {
        Seq::empty()
    } else if data.len() <= cs {
        seq![data]
    } else {
        seq![data.take(cs as int)] + chunk_windows(data.skip(cs as int), cs)
    }
}

/// The manifest of a file: its name, length and the ids of its windows.
pub open spec fn manifest_of(filename: Seq<char>, data: Seq<u8>, cs: nat) -> ManifestView {
    ManifestView {
        filename,
        size: data.len() as u64,
        chunk_hashes: chunk_windows(data, cs).map_values(|w: Seq<u8>| chunk_id_of(w)),
        sender_pubkey: None,
        sender_sig: None,
    }
}

impl Manifest {
    /// The canonical encoding of this manifest.
    pub fn encode(&self) -> (r: Vec<u8>)
        ensures
            r@ == manifest_encoding(self@),
    {
        let mut out: Vec<u8> = Vec::new();
        put_text(&mut out, self.filename.as_str());
        put_u64(&mut out, self.size);
        put_text_list(&mut out, &self.chunk_hashes);
        put_option(&mut out, &self.sender_pubkey);
        put_option(&mut out, &self.sender_sig);
        assert(out@ =~= manifest_encoding(self@));
        out
    }

    /// The bytes a signature covers: the encoding with the signature absent.
    pub fn signing_bytes(&self) -> (r: Vec<u8>)
        ensures
            r@ == manifest_encoding(unsigned(self@)),
    {
        let mut out: Vec<u8> = Vec::new();
        put_text(&mut out, self.filename.as_str());
        put_u64(&mut out, self.size);
        put_text_list(&mut out, &self.chunk_hashes);
        put_option(&mut out, &self.sender_pubkey);
        put_option(&mut out, &None);
        assert(out@ =~= manifest_encoding(unsigned(self@)));
        out
    }

    /// Sets the signer's key to `identity`'s and signs the manifest. The
    /// result verifies.
    pub fn sign(&mut self, identity: &Identity)
        ensures
            final(self)@ == signed_by(old(self)@, identity.secret()),
            verification(final(self)@) == Ok::<(), ManifestError>(()),
    {
        let public = identity.public_key_bytes();
        self.sender_pubkey = Some(vstd::slice::slice_to_vec(public.as_slice()));
        self.sender_sig = None;
        let msg = self.signing_bytes();
        let sig = identity.sign(msg.as_slice());
        self.sender_sig = Some(vstd::slice::slice_to_vec(sig.as_slice()));
        proof {
            let with_key = ManifestView {
                sender_pubkey: Some(ed25519_public_of(identity.secret())),
                sender_sig: None,
                ..old(self)@
            };
            assert(unsigned(self@) == with_key);
            assert(self@ == signed_by(old(self)@, identity.secret()));
        }
    }

    /// Checks the signature against the embedded key.
    pub fn verify(&self) -> (r: Result<(), ManifestError>)
        ensures
            r == verification(self@),
    {
        let (sig, key) = match (&self.sender_sig, &self.sender_pubkey) {
            (Some(sig), Some(key)) => (sig, key),
            _ => return Err(ManifestError::MissingSignature),
        };
        if sig.len() != 64 || key.len() != 32 {
            return Err(ManifestError::MalformedSignature);
        }
        let key_arr = bytes32(key.as_slice());
        let sig_arr = bytes64(sig.as_slice());
        let msg = self.signing_bytes();
        if ed25519_verify(&key_arr, msg.as_slice(), &sig_arr) {
            Ok(())
        } else {
            Err(ManifestError::InvalidSignature)
        }
    }

    /// Checks the signature against `pubkey`, ignoring the embedded key.
    pub fn verify_with_pubkey(&self, pubkey: &[u8; 32]) -> (r: Result<(), ManifestError>)
        ensures
            r == verification_with(self@, pubkey@),
    {
        let sig = match &self.sender_sig {
            Some(sig) => sig,
            None => return Err(ManifestError::MissingSignature),
        };
        if sig.len() != 64 {
            return Err(ManifestError::MalformedSignature);
        }
        let sig_arr = bytes64(sig.as_slice());
        let msg = self.signing_bytes();
        if ed25519_verify(pubkey, msg.as_slice(), &sig_arr) {
            Ok(())
        } else {
            Err(ManifestError::InvalidSignature)
        }
    }
}


impl Manifest {
    /// Reads a manifest from its canonical encoding. It succeeds exactly on
    /// the encodings of manifests, and gives back the manifest encoded.
    pub fn decode(bytes: &[u8]) -> (r: Option<Manifest>)
        ensures
            r matches Some(m) ==> manifest_encoding(m@) == bytes@,
            forall|mv: ManifestView| #[trigger]
                manifest_encoding(mv) == bytes@ ==> (r matches Some(m) && m@ == mv),
    {
        let ghost b = bytes@;
        proof {
            assert forall|mv: ManifestView| #[trigger] manifest_encoding(mv) == b implies {
                let a = enc_text(mv.filename);
                let c = a + enc_u64(mv.size);
                let d = c + enc_text_list(mv.chunk_hashes);
                let e = d + enc_option(mv.sender_pubkey);
                &&& holds_at(b, 0, a)
                &&& holds_at(b, a.len() as int, enc_u64(mv.size))
                &&& holds_at(b, c.len() as int, enc_text_list(mv.chunk_hashes))
                &&& holds_at(b, d.len() as int, enc_option(mv.sender_pubkey))
                &&& holds_at(b, e.len() as int, enc_option(mv.sender_sig))
                &&& e.len() + enc_option(mv.sender_sig).len() == b.len()
            } by {
                let a = enc_text(mv.filename);
                let c = a + enc_u64(mv.size);
                let d = c + enc_text_list(mv.chunk_hashes);
                let e = d + enc_option(mv.sender_pubkey);
                assert(holds_at(b, 0, e + enc_option(mv.sender_sig))) by {
                    assert(b.subrange(0, b.len() as int) =~= b);
                }
                lemma_holds_split(b, 0, e, enc_option(mv.sender_sig));
                lemma_holds_split(b, 0, d, enc_option(mv.sender_pubkey));
                lemma_holds_split(b, 0, c, enc_text_list(mv.chunk_hashes));
                lemma_holds_split(b, 0, a, enc_u64(mv.size));
            }
        }
        let (filename, at_size) = match get_text(bytes, 0) {
            Some(x) => x,
            None => return None,
        };
        proof {
            assert forall|mv: ManifestView| #[trigger] manifest_encoding(mv) == b implies holds_at(
                b,
                at_size as int,
                enc_u64(mv.size),
            ) by {
                assert(filename@ == mv.filename);
            }
        }
        let (size, at_ids) = match get_u64(bytes, at_size) {
            Some(x) => x,
            None => return None,
        };
        proof {
            assert forall|mv: ManifestView| #[trigger] manifest_encoding(mv) == b implies holds_at(
                b,
                at_ids as int,
                enc_text_list(mv.chunk_hashes),
            ) by {
                assert(filename@ == mv.filename);
                assert(size == mv.size);
                lemma_enc_u64_len(mv.size);
            }
        }
        let (chunk_hashes, at_key) = match get_text_list(bytes, at_ids) {
            Some(x) => x,
            None => return None,
        };
        proof {
            assert forall|mv: ManifestView| #[trigger] manifest_encoding(mv) == b implies holds_at(
                b,
                at_key as int,
                enc_option(mv.sender_pubkey),
            ) by {
                assert(filename@ == mv.filename);
                assert(size == mv.size);
                lemma_enc_u64_len(mv.size);
                assert(texts_of(chunk_hashes@) == mv.chunk_hashes);
            }
        }
        let (sender_pubkey, at_sig) = match get_option(bytes, at_key) {
            Some(x) => x,
            None => return None,
        };
        proof {
            assert forall|mv: ManifestView| #[trigger] manifest_encoding(mv) == b implies holds_at(
                b,
                at_sig as int,
                enc_option(mv.sender_sig),
            ) by {
                assert(filename@ == mv.filename);
                assert(size == mv.size);
                lemma_enc_u64_len(mv.size);
                assert(texts_of(chunk_hashes@) == mv.chunk_hashes);
                assert(opt_bytes(sender_pubkey) == mv.sender_pubkey);
            }
        }
        let (sender_sig, end) = match get_option(bytes, at_sig) {
            Some(x) => x,
            None => return None,
        };
        proof {
            assert forall|mv: ManifestView| #[trigger] manifest_encoding(mv) == b implies end == b.len() by {
                assert(filename@ == mv.filename);
                assert(size == mv.size);
                lemma_enc_u64_len(mv.size);
                assert(texts_of(chunk_hashes@) == mv.chunk_hashes);
                assert(opt_bytes(sender_pubkey) == mv.sender_pubkey);
                assert(opt_bytes(sender_sig) == mv.sender_sig);
            }
        }
        if end != bytes.len() {
            return None;
        }
        let m = Manifest { filename, size, chunk_hashes, sender_pubkey, sender_sig };
        proof {
            let a = enc_text(m@.filename);
            let c = a + enc_u64(m@.size);
            let d = c + enc_text_list(m@.chunk_hashes);
            let e = d + enc_option(m@.sender_pubkey);
            lemma_enc_u64_len(m@.size);
            assert(at_size == a.len());
            assert(at_ids == c.len());
            assert(at_key == d.len());
            assert(at_sig == e.len());
            assert(holds_at(b, a.len() as int, enc_u64(m@.size)));
            assert(holds_at(b, c.len() as int, enc_text_list(m@.chunk_hashes)));
            assert(holds_at(b, d.len() as int, enc_option(m@.sender_pubkey)));
            assert(holds_at(b, e.len() as int, enc_option(m@.sender_sig)));
            lemma_holds_split(b, 0, a, enc_u64(m@.size));
            lemma_holds_split(b, 0, c, enc_text_list(m@.chunk_hashes));
            lemma_holds_split(b, 0, d, enc_option(m@.sender_pubkey));
            lemma_holds_split(b, 0, e, enc_option(m@.sender_sig));
            assert(b.subrange(0, b.len() as int) =~= b);
            assert(manifest_encoding(m@) == e + enc_option(m@.sender_sig));
            assert forall|mv: ManifestView| #[trigger] manifest_encoding(mv) == b implies m@ == mv by {
                assert(opt_bytes(m.sender_pubkey) == mv.sender_pubkey);
            }
        }
        Some(m)
    }
}


impl Manifest {
    /// The unsigned manifest of a file with contents `data`, cut into chunks
    /// of `chunk_size` bytes.
    pub fn from_contents(filename: String, data: &[u8], chunk_size: usize) -> (r: Manifest)
        requires
            chunk_size > 0,
        ensures
            r@ == manifest_of(filename@, data@, chunk_size as nat),
    {
        let ghost cs = chunk_size as nat;
        let mut hashes: Vec<String> = Vec::new();
        let mut off: usize = 0;
        let ghost mut done: Seq<Seq<u8>> = Seq::empty();
        proof {
            assert(data@.skip(0) =~= data@);
            assert(done + chunk_windows(data@, cs) =~= chunk_windows(data@, cs));
            assert(texts_of(hashes@) =~= done.map_values(|w: Seq<u8>| chunk_id_of(w)));
        }
        while off < data.len()
            invariant
                off <= data@.len(),
                cs == chunk_size,
                chunk_size > 0,
                done + chunk_windows(data@.skip(off as int), cs) == chunk_windows(data@, cs),
                texts_of(hashes@) == done.map_values(|w: Seq<u8>| chunk_id_of(w)),
            decreases data@.len() - off,
        {
            let ghost t = data@.skip(off as int);
            let rest = data.len() - off;
            let end = if rest <= chunk_size {
                data.len()
            } else {
                off + chunk_size
            };
            let window = vstd::slice::slice_subrange(data, off, end);
            proof {
                if rest <= chunk_size {
                    assert(window@ =~= t);
                    assert(data@.skip(end as int) =~= Seq::<u8>::empty());
                    assert(chunk_windows(t, cs) == seq![t]);
                } else {
                    assert(window@ =~= t.take(cs as int));
                    assert(data@.skip(end as int) =~= t.skip(cs as int));
                }
                assert(done + chunk_windows(t, cs) =~= done.push(window@) + chunk_windows(
                    data@.skip(end as int),
                    cs,
                ));
            }
            let id = chunk_id(window);
            let ghost before = hashes@;
            let ghost id_text = id@;
            hashes.push(id);
            proof {
                let old_done = done;
                done = done.push(window@);
                assert(texts_of(hashes@) =~= texts_of(before).push(id_text));
                assert(done.map_values(|w: Seq<u8>| chunk_id_of(w)) =~= old_done.map_values(
                    |w: Seq<u8>| chunk_id_of(w),
                ).push(chunk_id_of(window@)));
            }
            off = end;
        }
        proof {
            assert(data@.skip(off as int) =~= Seq::<u8>::empty());
            assert(done + Seq::<Seq<u8>>::empty() =~= done);
        }
        Manifest {
            filename,
            size: data.len() as u64,
            chunk_hashes: hashes,
            sender_pubkey: None,
            sender_sig: None,
        }
    }
}

/// Cutting a file into chunks loses nothing: the chunks, concatenated in
/// order, are the file; every chunk holds `cs` bytes but the last, which
/// holds between 1 and `cs`; and the manifest records the file's length and
/// one id per chunk, in order.
pub proof fn law_manifest_closure(filename: Seq<char>, data: Seq<u8>, cs: nat)
    requires
        cs > 0,
        data.len() <= u64::MAX,
    ensures
        chunk_windows(data, cs).flatten() == data,
        forall|i: int|
            0 <= i < chunk_windows(data, cs).len() ==> 0 < #[trigger] chunk_windows(data, cs)[i].len()
                <= cs,
        forall|i: int|
            0 <= i < chunk_windows(data, cs).len() - 1 ==> #[trigger] chunk_windows(data, cs)[i].len()
                == cs,
        manifest_of(filename, data, cs).size == data.len(),
        manifest_of(filename, data, cs).chunk_hashes.len() == chunk_windows(data, cs).len(),
        forall|i: int|
            0 <= i < chunk_windows(data, cs).len() ==> #[trigger] manifest_of(
                filename,
                data,
                cs,
            ).chunk_hashes[i] == chunk_id_of(chunk_windows(data, cs)[i]),
    decreases data.len(),
{
    let w = chunk_windows(data, cs);
    if data.len() == 0 {
    } else if data.len() <= cs {
        assert(w.drop_first() =~= Seq::<Seq<u8>>::empty());
        assert(w.drop_first().flatten() =~= Seq::<u8>::empty());
        assert(w.first() == data);
        assert(w.flatten() == w.first() + w.drop_first().flatten());
        assert(w.flatten() =~= data);
    } else {
        let rest = data.skip(cs as int);
        law_manifest_closure(filename, rest, cs);
        let wr = chunk_windows(rest, cs);
        assert(w == seq![data.take(cs as int)] + wr);
        assert(w.drop_first() =~= wr);
        assert(w.flatten() =~= data.take(cs as int) + wr.flatten());
        assert(data =~= data.take(cs as int) + rest);
        assert forall|i: int| 0 <= i < w.len() implies 0 < #[trigger] w[i].len() <= cs by {
            if i > 0 {
                assert(w[i] == wr[i - 1]);
            }
        }
        assert forall|i: int| 0 <= i < w.len() - 1 implies #[trigger] w[i].len() == cs by {
            if i > 0 {
                assert(w[i] == wr[i - 1]);
            }
        }
    }
}


impl Manifest {
    /// A one-line description: `name (size bytes, count chunks)`.
    pub fn summary(&self) -> (r: String)
        ensures
            r@ == self.filename@ + " ("@ + decimal(self.size as nat) + " bytes, "@ + decimal(
                self.chunk_hashes@.len(),
            ) + " chunks)"@,
    {
        let mut s = self.filename.clone();
        s.append(" (");
        s.append(decimal_text(self.size).as_str());
        s.append(" bytes, ");
        s.append(decimal_text(self.chunk_hashes.len() as u64).as_str());
        s.append(" chunks)");
        s
    }
}


/// A file name with no directory part: not empty, not `.` or `..`, and
/// without path separators.
pub open spec fn plain_name(s: Seq<char>) -> bool {
    &&& s.len() > 0
    &&& s != seq!['.']
    &&& s != seq!['.', '.']
    &&& forall|i: int| 0 <= i < s.len() ==> #[trigger] s[i] != '/' && s[i] != '\\'
}

impl Manifest {
    /// Whether the file name can be used as is inside a directory.
    pub fn has_plain_filename(&self) -> (r: bool)
        ensures
            r == plain_name(self.filename@),
    {
        let name = self.filename.as_str();
        let n = name.unicode_len();
        if n == 0 {
            return false;
        }
        let mut i: usize = 0;
        while i < n
            invariant
                n == name@.len(),
                name@ == self.filename@,
                i <= n,
                forall|j: int| 0 <= j < i ==> #[trigger] name@[j] != '/' && name@[j] != '\\',
            decreases n - i,
        {
            let c = name.get_char(i);
            if c == '/' || c == '\\' {
                assert(self.filename@[i as int] == c);
                return false;
            }
            i = i + 1;
        }
        if n <= 2 && name.get_char(0) == '.' && (n == 1 || name.get_char(1) == '.') {
            proof {
                if n == 1 {
                    assert(name@ =~= seq!['.']);
                } else {
                    assert(name@ =~= seq!['.', '.']);
                }
            }
            return false;
        }
        proof {
            if n == 1 {
                assert(name@[0] != '.');
            } else if n == 2 {
                assert(name@[0] != '.' || name@[1] != '.');
            }
        }
        true
    }
}


/// Cuts a file's contents into the windows its manifest lists: `chunk_size`
/// bytes each, the last possibly shorter.
pub fn windows(data: &[u8], chunk_size: usize) -> (r: Vec<Vec<u8>>)
    requires
        chunk_size > 0,
    ensures
        r@.map_values(|w: Vec<u8>| w@) == chunk_windows(data@, chunk_size as nat),
{
    let ghost cs = chunk_size as nat;
    let mut out: Vec<Vec<u8>> = Vec::new();
    let mut off: usize = 0;
    proof {
        assert(data@.skip(0) =~= data@);
        assert(out@.map_values(|w: Vec<u8>| w@) + chunk_windows(data@, cs) =~= chunk_windows(data@, cs));
    }
    while off < data.len()
        invariant
            off <= data@.len(),
            cs == chunk_size,
            chunk_size > 0,
            out@.map_values(|w: Vec<u8>| w@) + chunk_windows(data@.skip(off as int), cs) == chunk_windows(
                data@,
                cs,
            ),
        decreases data@.len() - off,
    {
        let ghost t = data@.skip(off as int);
        let ghost done = out@.map_values(|w: Vec<u8>| w@);
        let rest = data.len() - off;
        let end = if rest <= chunk_size {
            data.len()
        } else {
            off + chunk_size
        };
        let window = vstd::slice::slice_subrange(data, off, end);
        proof {
            if rest <= chunk_size {
                assert(window@ =~= t);
                assert(data@.skip(end as int) =~= Seq::<u8>::empty());
                assert(chunk_windows(t, cs) == seq![t]);
            } else {
                assert(window@ =~= t.take(cs as int));
                assert(data@.skip(end as int) =~= t.skip(cs as int));
            }
            assert(done + chunk_windows(t, cs) =~= done.push(window@) + chunk_windows(
                data@.skip(end as int),
                cs,
            ));
        }
        out.push(vstd::slice::slice_to_vec(window));
        proof {
            assert(out@.map_values(|w: Vec<u8>| w@) =~= done.push(window@));
        }
        off = end;
    }
    proof {
        assert(data@.skip(off as int) =~= Seq::<u8>::empty());
        assert(out@.map_values(|w: Vec<u8>| w@) + Seq::<Seq<u8>>::empty() =~= out@.map_values(
            |w: Vec<u8>| w@,
        ));
    }
    out
}

} // verus!
