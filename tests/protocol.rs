use openshare::config::ClientConfig;
use openshare::discovery::{compute_account_hash, device_announcement, ensure_dot};
use openshare::frame::{encode_frame, frame_len, read_frame, write_frame, FrameError, Pipe, MAX_FRAME_LEN};
use openshare::handshake::{
    derive_session, initiator_finish, responder_reply, start, HandshakeError, Session, SessionError,
};
use openshare::keys::Identity;
use openshare::manifest::Manifest;
use openshare::storage::MemoryStorage;
use openshare::transfer::{
    answer, assemble, receive_all, send_all, ChunkVerdict, ReceiverHandshake, SenderHandshake,
    TransferError,
};

#[test]
fn test_ensure_dot() {
    assert_eq!(ensure_dot("test_case").contains("."), true);
}

#[test]
fn ensure_dot_keeps_existing_dot() {
    assert_eq!(ensure_dot("host.local."), "host.local.");
    assert_eq!(ensure_dot("host.local"), "host.local.");
    assert_eq!(ensure_dot(""), ".");
}

#[test]
fn frame_round_trip() {
    let mut pipe = Pipe::new();
    write_frame(&mut pipe, b"hello").unwrap();
    write_frame(&mut pipe, b"").unwrap();
    assert_eq!(read_frame(&mut pipe).unwrap(), b"hello".to_vec());
    assert_eq!(read_frame(&mut pipe).unwrap(), Vec::<u8>::new());
    assert_eq!(read_frame(&mut pipe), Err(FrameError::UnexpectedEof));
    assert_eq!(encode_frame(b"ab"), vec![0, 0, 0, 2, b'a', b'b']);
}

#[test]
fn frame_at_the_bound() {
    let payload = vec![5u8; MAX_FRAME_LEN];
    let mut pipe = Pipe::new();
    write_frame(&mut pipe, &payload).unwrap();
    assert_eq!(read_frame(&mut pipe).unwrap().len(), MAX_FRAME_LEN);
}

#[test]
fn oversized_frame_writes_but_does_not_read() {
    let payload = vec![0u8; MAX_FRAME_LEN + 1];
    let mut pipe = Pipe::new();
    assert_eq!(write_frame(&mut pipe, &payload), Ok(()));
    assert_eq!(read_frame(&mut pipe), Err(FrameError::FrameTooLarge));
}

#[test]
fn adversarial_length_is_refused() {
    let mut pipe = Pipe::new();
    pipe.write_all(&[0xff, 0xff, 0xff, 0xff, 1, 2, 3]);
    assert_eq!(read_frame(&mut pipe), Err(FrameError::FrameTooLarge));
    assert_eq!(frame_len(&[0xff, 0xff, 0xff, 0xff]), Err(FrameError::FrameTooLarge));
    assert_eq!(frame_len(&[0, 0xa0, 0, 0]), Ok(MAX_FRAME_LEN));
    assert_eq!(frame_len(&[0, 0xa0, 0, 1]), Err(FrameError::FrameTooLarge));
}

#[test]
fn truncated_frame_is_eof() {
    let mut pipe = Pipe::new();
    pipe.write_all(&[0, 0, 0, 5, 1, 2]);
    assert_eq!(read_frame(&mut pipe), Err(FrameError::UnexpectedEof));
    let mut short = Pipe::new();
    short.write_all(&[0, 0]);
    assert_eq!(read_frame(&mut short), Err(FrameError::UnexpectedEof));
}

#[test]
fn sessions_sharing_a_key_interoperate() {
    let a = Session { session_key: [3u8; 32] };
    let b = Session { session_key: [3u8; 32] };
    let sealed = a.seal(b"secret message");
    assert_eq!(sealed.len(), 24 + 14 + 16);
    assert_eq!(b.open(&sealed), Ok(b"secret message".to_vec()));
    let mut pipe = Pipe::new();
    a.send_encrypted_frame(&mut pipe, b"over the wire").unwrap();
    assert_eq!(b.read_encrypted_frame(&mut pipe), Ok(b"over the wire".to_vec()));
}

#[test]
fn flipped_bit_fails_decryption() {
    let s = Session { session_key: [4u8; 32] };
    let sealed = s.seal(b"payload");
    for i in 0..sealed.len() {
        let mut bad = sealed.clone();
        bad[i] ^= 0x01;
        assert_eq!(s.open(&bad), Err(SessionError::DecryptionFailed));
    }
    assert_eq!(s.open(&sealed[..23]), Err(SessionError::DecryptionFailed));
    let other = Session { session_key: [5u8; 32] };
    assert_eq!(other.open(&sealed), Err(SessionError::DecryptionFailed));
}

#[test]
fn swapped_ciphertexts_fail_decryption() {
    let s = Session { session_key: [6u8; 32] };
    let one = s.seal(b"first frame!");
    let two = s.seal(b"second one!!");
    assert_ne!(one[..24], two[..24]);
    let mut mixed = one[..24].to_vec();
    mixed.extend_from_slice(&two[24..]);
    assert_eq!(s.open(&mixed), Err(SessionError::DecryptionFailed));
}

#[test]
fn handshake_agrees_on_a_key() {
    let alice = Identity::generate();
    let bob = Identity::generate();
    let (pending, hello) = start(&alice);
    assert_eq!(hello.len(), 128);
    let (bob_session, reply) =
        responder_reply(&bob, &hello, Some(&alice.public_key_bytes())).unwrap();
    assert_eq!(reply.len(), 128);
    let alice_session = initiator_finish(pending, &reply, Some(&bob.public_key_bytes())).unwrap();
    assert_eq!(alice_session.session_key, bob_session.session_key);
}

#[test]
fn handshake_refuses_short_and_forged_messages() {
    let alice = Identity::generate();
    let bob = Identity::generate();
    let mallory = Identity::generate();
    let (_, hello) = start(&alice);
    assert_eq!(
        responder_reply(&bob, &hello[..127], None).err(),
        Some(HandshakeError::TooShort)
    );
    assert_eq!(
        responder_reply(&bob, &hello, Some(&mallory.public_key_bytes())).err(),
        Some(HandshakeError::BadPeerSignature)
    );
    let (pending, _) = start(&alice);
    let (_, reply) = responder_reply(&bob, &hello, None).unwrap();
    assert!(matches!(
        initiator_finish(pending, &reply, Some(&mallory.public_key_bytes())),
        Err(HandshakeError::BadPeerSignature)
    ));
}

#[test]
fn all_zero_shared_secret_is_refused() {
    assert!(matches!(
        derive_session(&[0u8; 32], &[1u8; 32], &[2u8; 32]),
        Err(HandshakeError::WeakSharedSecret)
    ));
    let one = derive_session(&[7u8; 32], &[1u8; 32], &[2u8; 32]).unwrap();
    let two = derive_session(&[7u8; 32], &[1u8; 32], &[2u8; 32]).unwrap();
    let swapped = derive_session(&[7u8; 32], &[2u8; 32], &[1u8; 32]).unwrap();
    assert_eq!(one.session_key, two.session_key);
    assert_ne!(one.session_key, swapped.session_key);
}

fn run_transfer(
    data: &[u8],
    chunk_size: usize,
) -> (Result<Manifest, TransferError>, MemoryStorage, Manifest) {
    let sender_id = Identity::generate();
    let receiver_id = Identity::generate();
    let mut sender_store = MemoryStorage::new();
    let mut receiver_store = MemoryStorage::new();
    let manifest = Manifest::from_contents("test.txt".to_string(), data, chunk_size);
    for window in data.chunks(chunk_size) {
        sender_store.put(window);
    }
    let mut to_receiver = Pipe::new();
    let mut to_sender = Pipe::new();
    let (hs, hello) = SenderHandshake::begin(manifest.clone(), &sender_id);
    write_frame(&mut to_receiver, &hello).unwrap();
    let rh = answer(
        &receiver_id,
        &mut to_receiver,
        &mut to_sender,
        Some(&sender_id.public_key_bytes()),
    )
    .unwrap();
    send_all(
        hs,
        &sender_store,
        &mut to_sender,
        &mut to_receiver,
        Some(&receiver_id.public_key_bytes()),
    )
    .unwrap();
    let received = receive_all(rh, &mut to_receiver, &mut receiver_store);
    (received, receiver_store, manifest)
}

#[test]
fn test_client_transfer() {
    let test_data = b"Hello, OpenShare!";
    let (received, store, manifest) = run_transfer(test_data, 262144);
    let received_manifest = received.unwrap();
    assert_eq!(received_manifest.filename, manifest.filename);
    assert_eq!(received_manifest.size, manifest.size);
    assert_eq!(received_manifest.filename, "test.txt");
    assert_eq!(assemble(&received_manifest, &store).unwrap(), test_data.to_vec());
    assert!(store.contains("f6ba9b387f259c122f08e536ace02f234793725b459ce21054cc1ca036a6c8a5"));
    assert_eq!(received_manifest.verify(), Ok(()));
}

#[test]
fn transfer_of_three_chunks() {
    let cs = 1024usize;
    let data: Vec<u8> = (0..(2 * cs + 1)).map(|i| (i * 7 % 256) as u8).collect();
    let (received, store, _) = run_transfer(&data, cs);
    let m = received.unwrap();
    assert_eq!(m.chunk_hashes.len(), 3);
    assert_eq!(store.get(&m.chunk_hashes[0]).unwrap().len(), cs);
    assert_eq!(store.get(&m.chunk_hashes[1]).unwrap().len(), cs);
    assert_eq!(store.get(&m.chunk_hashes[2]).unwrap().len(), 1);
    assert_eq!(assemble(&m, &store).unwrap(), data);
}

#[test]
fn transfer_of_empty_file() {
    let (received, store, _) = run_transfer(b"", 16);
    let m = received.unwrap();
    assert_eq!(m.size, 0);
    assert_eq!(assemble(&m, &store).unwrap(), Vec::<u8>::new());
}

#[test]
fn substituted_chunk_is_not_stored() {
    let sender_id = Identity::generate();
    let receiver_id = Identity::generate();
    let data = b"aaaabbbb";
    let manifest = Manifest::from_contents("f".to_string(), data, 4);
    let mut to_receiver = Pipe::new();
    let mut to_sender = Pipe::new();
    let (hs, hello) = SenderHandshake::begin(manifest, &sender_id);
    write_frame(&mut to_receiver, &hello).unwrap();
    let rh = answer(&receiver_id, &mut to_receiver, &mut to_sender, None).unwrap();
    let reply = read_frame(&mut to_sender).unwrap();
    let (mut sender, manifest_payload) = hs.complete(&reply, None).unwrap();
    let first = sender.send_chunk(Some(b"aaaa".to_vec())).unwrap();
    let wrong = sender.send_chunk(Some(b"cccc".to_vec())).unwrap();
    assert!(sender.is_done());
    let mut receiver = rh.accept_manifest(&manifest_payload).unwrap();
    let mut store = MemoryStorage::new();
    match receiver.take_chunk(&first).unwrap() {
        ChunkVerdict::Matched(d) => {
            store.put(&d);
        }
        ChunkVerdict::Mismatched(_) => panic!("first chunk should match"),
    }
    assert!(matches!(receiver.take_chunk(&wrong).unwrap(), ChunkVerdict::Mismatched(_)));
    assert!(receiver.is_done());
    assert_eq!(assemble(receiver.manifest(), &store), Err(TransferError::MissingChunk));
}

#[test]
fn missing_sender_chunk_is_fatal() {
    let sender_id = Identity::generate();
    let receiver_id = Identity::generate();
    let manifest = Manifest::from_contents("f".to_string(), b"data", 4);
    let store = MemoryStorage::new();
    let mut to_receiver = Pipe::new();
    let mut to_sender = Pipe::new();
    let (hs, hello) = SenderHandshake::begin(manifest, &sender_id);
    write_frame(&mut to_receiver, &hello).unwrap();
    answer(&receiver_id, &mut to_receiver, &mut to_sender, None).unwrap();
    assert_eq!(
        send_all(hs, &store, &mut to_sender, &mut to_receiver, None),
        Err(TransferError::ChunkMissing)
    );
}

#[test]
fn tampered_manifest_frame_is_refused() {
    let sender_id = Identity::generate();
    let receiver_id = Identity::generate();
    let manifest = Manifest::from_contents("f".to_string(), b"data", 4);
    let (hs, hello) = SenderHandshake::begin(manifest, &sender_id);
    let (rh, reply) = ReceiverHandshake::respond(&receiver_id, &hello, None).unwrap();
    let (_, mut payload) = hs.complete(&reply, None).unwrap();
    let last = payload.len() - 1;
    payload[last] ^= 0x80;
    assert_eq!(rh.accept_manifest(&payload).err(), Some(TransferError::DecryptionFailed));
}

#[test]
fn config_defaults_and_account() {
    let cfg = ClientConfig::with_data_dir("/tmp/os".to_string());
    assert_eq!(cfg.chunk_size, 262144);
    assert_eq!(cfg.listen_port, 9876);
    assert_eq!(cfg.service_type, "_openshare._tcp.local.");
    let cfg = cfg.with_account("acct".to_string(), "dev1".to_string());
    assert_eq!(cfg.account_hash, "acct");
    assert_eq!(cfg.device_id, "dev1");
    assert_eq!(cfg.data_dir, "/tmp/os");
}

#[test]
fn account_hash_and_announcement() {
    assert_eq!(compute_account_hash("alice"), "2bd806c97f0e00af");
    let cfg = ClientConfig::with_data_dir("/d".to_string())
        .with_account("2bd806c97f0e00af".to_string(), "laptop".to_string());
    let ann = device_announcement(&cfg, "0a1b2c3d".to_string(), "192.168.1.2".to_string(), 9876);
    assert_eq!(ann.host_name, "laptop.local.");
    assert_eq!(ann.instance_name, "laptop");
    assert_eq!(ann.port, 9876);
    let txt = ann.txt.unwrap().0;
    assert_eq!(txt[0], ("acct_hash".to_string(), "2bd806c97f0e00af".to_string()));
    assert_eq!(txt[1], ("dev_id".to_string(), "laptop".to_string()));
    assert_eq!(txt[2], ("fp".to_string(), "0a1b2c3d".to_string()));
}

#[test]
fn manifest_frame_must_decode_and_verify() {
    let sender_id = Identity::generate();
    let receiver_id = Identity::generate();
    let manifest = Manifest::from_contents("f".to_string(), b"data", 4);
    let unsigned_bytes = manifest.encode();

    let (hs, hello) = SenderHandshake::begin(manifest.clone(), &sender_id);
    let (rh, reply) = ReceiverHandshake::respond(&receiver_id, &hello, None).unwrap();
    let (mut sender, _) = hs.complete(&reply, None).unwrap();
    let garbage = sender.send_chunk(Some(b"not a manifest".to_vec())).unwrap();
    assert_eq!(rh.accept_manifest(&garbage).err(), Some(TransferError::MalformedManifest));

    let (hs, hello) = SenderHandshake::begin(manifest, &sender_id);
    let (rh, reply) = ReceiverHandshake::respond(&receiver_id, &hello, None).unwrap();
    let (mut sender, _) = hs.complete(&reply, None).unwrap();
    let unsigned = sender.send_chunk(Some(unsigned_bytes)).unwrap();
    assert_eq!(rh.accept_manifest(&unsigned).err(), Some(TransferError::InvalidSignature));
}

#[test]
fn oversized_header_consumes_only_the_header() {
    let mut pipe = Pipe::new();
    pipe.write_all(&[0xff, 0xff, 0xff, 0xff, 1, 2, 3]);
    assert_eq!(read_frame(&mut pipe), Err(FrameError::FrameTooLarge));
    assert_eq!(pipe.read_exact(3), Ok(vec![1, 2, 3]));
}

#[test]
fn receive_all_skips_mismatched_chunks() {
    let sender_id = Identity::generate();
    let receiver_id = Identity::generate();
    let manifest = Manifest::from_contents("f".to_string(), b"aaaabbbb", 4);
    let mut to_receiver = Pipe::new();
    let mut to_sender = Pipe::new();
    let (hs, hello) = SenderHandshake::begin(manifest, &sender_id);
    write_frame(&mut to_receiver, &hello).unwrap();
    let rh = answer(&receiver_id, &mut to_receiver, &mut to_sender, None).unwrap();
    let reply = read_frame(&mut to_sender).unwrap();
    let (mut sender, manifest_payload) = hs.complete(&reply, None).unwrap();
    write_frame(&mut to_receiver, &manifest_payload).unwrap();
    let first = sender.send_chunk(Some(b"aaaa".to_vec())).unwrap();
    let wrong = sender.send_chunk(Some(b"cccc".to_vec())).unwrap();
    write_frame(&mut to_receiver, &first).unwrap();
    write_frame(&mut to_receiver, &wrong).unwrap();
    write_frame(&mut to_receiver, b"left for later").unwrap();
    let mut store = MemoryStorage::new();
    let m = receive_all(rh, &mut to_receiver, &mut store).unwrap();
    assert_eq!(m.filename, "f");
    assert!(store.contains(&m.chunk_hashes[0]));
    assert!(!store.contains(&m.chunk_hashes[1]));
    assert!(!store.contains(&openshare::crypto::chunk_id(b"cccc")));
    assert_eq!(assemble(&m, &store), Err(TransferError::MissingChunk));
    assert_eq!(read_frame(&mut to_receiver).unwrap(), b"left for later".to_vec());
}

#[test]
fn receive_all_reports_a_cut_stream() {
    let sender_id = Identity::generate();
    let receiver_id = Identity::generate();
    let manifest = Manifest::from_contents("f".to_string(), b"aaaabbbb", 4);
    let mut to_receiver = Pipe::new();
    let mut to_sender = Pipe::new();
    let (hs, hello) = SenderHandshake::begin(manifest, &sender_id);
    write_frame(&mut to_receiver, &hello).unwrap();
    let rh = answer(&receiver_id, &mut to_receiver, &mut to_sender, None).unwrap();
    let reply = read_frame(&mut to_sender).unwrap();
    let (mut sender, manifest_payload) = hs.complete(&reply, None).unwrap();
    write_frame(&mut to_receiver, &manifest_payload).unwrap();
    let first = sender.send_chunk(Some(b"aaaa".to_vec())).unwrap();
    write_frame(&mut to_receiver, &first).unwrap();
    let mut store = MemoryStorage::new();
    assert_eq!(
        receive_all(rh, &mut to_receiver, &mut store).err(),
        Some(TransferError::Frame(FrameError::UnexpectedEof))
    );
    assert!(store.contains(&openshare::crypto::chunk_id(b"aaaa")));
}

#[test]
fn answer_reports_short_hello() {
    let receiver_id = Identity::generate();
    let mut to_receiver = Pipe::new();
    let mut to_sender = Pipe::new();
    write_frame(&mut to_receiver, &[0u8; 100]).unwrap();
    assert_eq!(
        answer(&receiver_id, &mut to_receiver, &mut to_sender, None).err(),
        Some(TransferError::Handshake(HandshakeError::TooShort))
    );
    let mut empty = Pipe::new();
    assert_eq!(
        answer(&receiver_id, &mut empty, &mut to_sender, None).err(),
        Some(TransferError::Frame(FrameError::UnexpectedEof))
    );
    assert_eq!(read_frame(&mut to_sender), Err(FrameError::UnexpectedEof));
}
