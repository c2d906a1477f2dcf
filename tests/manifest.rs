use openshare::crypto::chunk_id;
use openshare::keys::{Identity, KeyError};
use openshare::manifest::{Manifest, ManifestError};

fn sample() -> Manifest {
    Manifest::from_contents("test.txt".to_string(), b"Hello, OpenShare!", 262144)
}

#[test]
fn builds_manifest_for_small_file() {
    let m = sample();
    assert_eq!(m.size, 17);
    assert_eq!(m.chunk_hashes.len(), 1);
    assert_eq!(
        m.chunk_hashes[0],
        "f6ba9b387f259c122f08e536ace02f234793725b459ce21054cc1ca036a6c8a5"
    );
    assert_eq!(m.filename, "test.txt");
    assert_eq!(m.sender_sig, None);
    assert_eq!(m.sender_pubkey, None);
}

#[test]
fn signed_manifest_verifies() {
    let id = Identity::generate();
    let mut m = sample();
    m.sign(&id);
    assert_eq!(m.sender_pubkey, Some(id.public_key_bytes().to_vec()));
    assert_eq!(m.sender_sig.as_ref().map(|s| s.len()), Some(64));
    assert_eq!(m.verify(), Ok(()));
    assert_eq!(m.verify_with_pubkey(&id.public_key_bytes()), Ok(()));
}

#[test]
fn other_key_is_rejected() {
    let id = Identity::generate();
    let other = Identity::generate();
    let mut m = sample();
    m.sign(&id);
    assert_eq!(
        m.verify_with_pubkey(&other.public_key_bytes()),
        Err(ManifestError::InvalidSignature)
    );
}

#[test]
fn tampered_size_is_rejected() {
    let id = Identity::generate();
    let mut m = sample();
    m.sign(&id);
    m.size ^= 1;
    assert_eq!(m.verify(), Err(ManifestError::InvalidSignature));
}

#[test]
fn missing_and_malformed_signatures() {
    let id = Identity::generate();
    let m = sample();
    assert_eq!(m.verify(), Err(ManifestError::MissingSignature));
    let mut signed = sample();
    signed.sign(&id);
    let mut short = signed.clone();
    short.sender_sig = Some(vec![0u8; 63]);
    assert_eq!(short.verify(), Err(ManifestError::MalformedSignature));
    let mut bad_key = signed.clone();
    bad_key.sender_pubkey = Some(vec![0u8; 31]);
    assert_eq!(bad_key.verify(), Err(ManifestError::MalformedSignature));
    let mut no_key = signed.clone();
    no_key.sender_pubkey = None;
    assert_eq!(no_key.verify(), Err(ManifestError::MissingSignature));
    assert_eq!(
        short.verify_with_pubkey(&id.public_key_bytes()),
        Err(ManifestError::MalformedSignature)
    );
}

#[test]
fn three_chunks_for_two_windows_and_a_byte() {
    let cs = 262144usize;
    let data: Vec<u8> = (0..(2 * cs + 1)).map(|i| (i % 251) as u8).collect();
    let m = Manifest::from_contents("big.bin".to_string(), &data, cs);
    assert_eq!(m.size, (2 * cs + 1) as u64);
    assert_eq!(m.chunk_hashes.len(), 3);
    assert_eq!(m.chunk_hashes[0], chunk_id(&data[..cs]));
    assert_eq!(m.chunk_hashes[1], chunk_id(&data[cs..2 * cs]));
    assert_eq!(m.chunk_hashes[2], chunk_id(&data[2 * cs..]));
}

#[test]
fn empty_file_has_no_chunks() {
    let m = Manifest::from_contents("empty".to_string(), b"", 4);
    assert_eq!(m.size, 0);
    assert!(m.chunk_hashes.is_empty());
}

#[test]
fn exact_multiple_has_no_short_chunk() {
    let m = Manifest::from_contents("x".to_string(), b"abcdefgh", 4);
    assert_eq!(m.chunk_hashes, vec![chunk_id(b"abcd"), chunk_id(b"efgh")]);
}

#[test]
fn encoding_layout() {
    let m = Manifest {
        filename: "a".to_string(),
        size: 258,
        chunk_hashes: vec!["xy".to_string()],
        sender_pubkey: None,
        sender_sig: Some(vec![7]),
    };
    let expected: Vec<u8> = vec![
        1, 0, 0, 0, 0, 0, 0, 0, b'a', // filename
        2, 1, 0, 0, 0, 0, 0, 0, // size
        1, 0, 0, 0, 0, 0, 0, 0, 2, 0, 0, 0, 0, 0, 0, 0, b'x', b'y', // chunk ids
        0, // no key
        1, 1, 0, 0, 0, 0, 0, 0, 0, 7, // signature
    ];
    assert_eq!(m.encode(), expected);
}

#[test]
fn decode_round_trip() {
    let id = Identity::generate();
    let mut m = sample();
    m.sign(&id);
    let bytes = m.encode();
    let back = Manifest::decode(&bytes).unwrap();
    assert_eq!(back.filename, m.filename);
    assert_eq!(back.size, m.size);
    assert_eq!(back.chunk_hashes, m.chunk_hashes);
    assert_eq!(back.sender_pubkey, m.sender_pubkey);
    assert_eq!(back.sender_sig, m.sender_sig);
    assert_eq!(back.verify(), Ok(()));
}

#[test]
fn decode_rejects_bad_input() {
    let bytes = sample().encode();
    assert!(Manifest::decode(&bytes[..bytes.len() - 1]).is_none());
    let mut longer = bytes.clone();
    longer.push(0);
    assert!(Manifest::decode(&longer).is_none());
    let mut bad_tag = bytes.clone();
    let last = bad_tag.len() - 1;
    bad_tag[last] = 2;
    assert!(Manifest::decode(&bad_tag).is_none());
    let mut bad_utf8 = bytes.clone();
    bad_utf8[8] = 0xff;
    assert!(Manifest::decode(&bad_utf8).is_none());
    assert!(Manifest::decode(&[]).is_none());
}

#[test]
fn summary_line() {
    assert_eq!(sample().summary(), "test.txt (17 bytes, 1 chunks)");
    let m = Manifest::from_contents("big.bin".to_string(), &vec![0u8; 1000], 100);
    assert_eq!(m.summary(), "big.bin (1000 bytes, 10 chunks)");
}

#[test]
fn identity_from_stored_secret() {
    assert_eq!(Identity::from_secret_bytes(&[1u8; 31]).err(), Some(KeyError::BadLength));
    let id = Identity::from_secret_bytes(&[9u8; 32]).unwrap();
    assert_eq!(id.secret_bytes(), [9u8; 32]);
    let again = Identity::from_secret_bytes(&id.secret_bytes()).unwrap();
    assert_eq!(again.public_key_bytes(), id.public_key_bytes());
    assert_eq!(id.fingerprint().len(), 8);
    assert_eq!(id.full_fingerprint().len(), 64);
    assert!(id.full_fingerprint().starts_with(&id.fingerprint()));
    let sig = id.sign(b"msg");
    assert!(Identity::verify_with_pubkey(&id.public_key_bytes(), b"msg", &sig));
    assert!(!Identity::verify_with_pubkey(&id.public_key_bytes(), b"other", &sig));
}

#[test]
fn plain_file_names() {
    let named = |n: &str| Manifest::from_contents(n.to_string(), b"x", 1);
    assert!(named("test.txt").has_plain_filename());
    assert!(named("..a").has_plain_filename());
    assert!(!named("../etc/passwd").has_plain_filename());
    assert!(!named("dir\\file").has_plain_filename());
    assert!(!named("..").has_plain_filename());
    assert!(!named(".").has_plain_filename());
    assert!(!named("").has_plain_filename());
}

#[test]
fn ed25519_known_answer() {
    let secret = [
        0x9d, 0x61, 0xb1, 0x9d, 0xef, 0xfd, 0x5a, 0x60, 0xba, 0x84, 0x4a, 0xf4, 0x92, 0xec, 0x2c, 0xc4,
        0x44, 0x49, 0xc5, 0x69, 0x7b, 0x32, 0x69, 0x19, 0x70, 0x3b, 0xac, 0x03, 0x1c, 0xae, 0x7f, 0x60,
    ];
    let id = Identity::from_secret_bytes(&secret).unwrap();
    assert_eq!(
        id.full_fingerprint(),
        "d75a980182b10ab7d54bfed3c964073a0ee172f3daa62325af021a68f707511a"
    );
    assert_eq!(id.fingerprint(), "d75a9801");
    assert_ne!(id.public_key_bytes(), id.secret_bytes());
    let expected = "e5564300c360ac729086e2cc806e828a84877f1eb8e5d974d873e065224901555fb8821590a33bacc61e39701cf9b46bd25bf5f0595bbe24655141438e7a100b";
    let rendered: String = id.sign(b"").iter().map(|b| format!("{:02x}", b)).collect();
    assert_eq!(rendered, expected);
}

#[test]
fn windows_match_manifest() {
    let data = b"abcdefghij";
    let w = openshare::manifest::windows(data, 4);
    assert_eq!(w, vec![b"abcd".to_vec(), b"efgh".to_vec(), b"ij".to_vec()]);
    let m = Manifest::from_contents("x".to_string(), data, 4);
    let ids: Vec<String> = w.iter().map(|c| chunk_id(c)).collect();
    assert_eq!(m.chunk_hashes, ids);
    assert!(openshare::manifest::windows(b"", 4).is_empty());
}
