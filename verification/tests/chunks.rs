use dipper::bytes::{Bytes20, Bytes32};
use dipper::chunkops::{
    is_stampable, payload_of, prepare_content_chunk, prepared, PrepareError, StampFault, Stamper,
};
use dipper::hexes::{address_hex, show_0x};
use dipper::store::{
    accept_chunk, accept_hashed, downloaded, get, has, put_outcome, put_request, read_input,
    read_only_stamper, stamped_request, uploaded, Chunk, ChunkCommandError, ChunkKind, Input, ReceiptReply,
    RetrieveReply, StoreError, UploadReply,
};
use dipper::wallet::{address_of, key_from_bytes, SigningKey};

fn key() -> SigningKey {
    key_from_bytes(Bytes32 { bytes: [7; 32] }).expect("a key")
}

fn batch() -> Bytes32 {
    Bytes32 { bytes: [0x42; 32] }
}

/// A chunk's address as the chunk library computes it.
fn chunk_of(data: &[u8]) -> Chunk {
    let chunk = nectar_primitives::DefaultContentChunk::new(data.to_vec()).expect("a chunk");
    let address = Bytes32 { bytes: (*nectar_primitives::Chunk::address(&chunk)).into() };
    let wire: nectar_primitives::bytes::Bytes = chunk.into();
    Chunk { address, wire: wire.to_vec() }
}

/// The account that signed a stamp.
fn stamp_signer(stamp: &[u8], address: &Bytes32) -> Bytes20 {
    let mut signed = address.bytes.to_vec();
    signed.extend_from_slice(&stamp[..48]);
    let digest = alloy_primitives::keccak256(&signed);
    let signature = alloy_primitives::Signature::from_raw(&stamp[48..113]).expect("a signature");
    let account = signature.recover_address_from_msg(digest.as_slice()).expect("an account");
    Bytes20 { bytes: account.into_array() }
}

#[test]
fn payload_follows_the_span() {
    assert_eq!(payload_of(&[1, 2, 3]), &[1, 2, 3]);
    assert_eq!(payload_of(&[0; 8]), &[] as &[u8]);
    assert_eq!(payload_of(&[0, 0, 0, 0, 0, 0, 0, 0, 5, 6]), &[5, 6]);
    assert_eq!(payload_of(&[]), &[] as &[u8]);
}

#[test]
fn prepared_chunk_has_body_address_and_stamp() {
    let p = prepare_content_chunk(b"foo".to_vec(), &batch(), 20, 16, &key()).ok().expect("prepared");
    assert_eq!(p.body, [&[3u8, 0, 0, 0, 0, 0, 0, 0][..], b"foo"].concat());
    assert_eq!(
        address_hex(&p.address),
        "2387e8e7d8a48c2a9339c97c1dc3461a9a7aa07e994c5cb8b38fd7c1b3e6ea48"
    );
    assert_eq!(p.stamp.len(), 113);
    assert_eq!(&p.stamp[..32], &batch().bytes);
    // The bucket is the address's leading 16 bits, the index the first slot.
    assert_eq!(&p.stamp[32..36], &[0, 0, 0x23, 0x87]);
    assert_eq!(&p.stamp[36..40], &[0, 0, 0, 0]);
    assert_eq!(stamp_signer(&p.stamp, &p.address), address_of(&key()));
}

#[test]
fn largest_payload_is_4096_bytes() {
    assert!(prepare_content_chunk(vec![1; 4096], &batch(), 17, 16, &key()).is_ok());
    let e = prepare_content_chunk(vec![1; 4097], &batch(), 17, 16, &key()).err().expect("refused");
    assert_eq!(e.message(), "failed to build content chunk");
    assert_eq!(
        e.cause(),
        "Invalid chunk size: data exceeds maximum chunk size (expected: 4096, got: 4097)"
    );
    let e = PrepareError::Stamp(StampFault::BucketFull { bucket: 5, capacity: 1 });
    assert_eq!(e.message(), "failed to issue/sign postage stamp");
    assert_eq!(e.cause(), "bucket full: bucket 5 has reached capacity 1");
    let e = PrepareError::Stamp(StampFault::Signer("no".to_string()));
    assert_eq!(e.cause(), "no");
}

#[test]
fn geometry_must_leave_slots() {
    assert!(is_stampable(20, 16));
    assert!(is_stampable(16, 16));
    assert!(is_stampable(47, 16));
    assert!(is_stampable(63, 32));
    assert!(!is_stampable(48, 16));
    assert!(!is_stampable(15, 16));
    assert!(!is_stampable(4, 0));
    assert!(!is_stampable(40, 33));
}

#[test]
fn stamps_of_one_stamper_never_share_a_slot() {
    let mut stamper = Stamper::new(&batch(), 18, 16, &key());
    let mut slots: Vec<Vec<u8>> = Vec::new();
    for low in 0..4u8 {
        let mut address = [0xabu8; 32];
        address[31] = low;
        let stamp = stamper.stamp(&Bytes32 { bytes: address }).ok().expect("stamped");
        assert_eq!(&stamp[32..36], &[0, 0, 0xab, 0xab]);
        assert_eq!(&stamp[36..40], &[0, 0, 0, low]);
        slots.push(stamp[32..40].to_vec());
    }
    let other = stamper.stamp(&Bytes32 { bytes: [0xcd; 32] }).ok().expect("another bucket");
    assert_eq!(&other[36..40], &[0, 0, 0, 0]);
    slots.push(other[32..40].to_vec());
    for i in 0..slots.len() {
        for j in 0..i {
            assert_ne!(slots[i], slots[j]);
        }
    }
    // The first bucket's four slots are given out.
    match stamper.stamp(&Bytes32 { bytes: [0xab; 32] }) {
        Err(StampFault::BucketFull { bucket, capacity }) => {
            assert_eq!(bucket, 0xabab);
            assert_eq!(capacity, 4);
        }
        _ => panic!("a full bucket is refused"),
    }
    assert!(stamper.stamp(&Bytes32 { bytes: [0xcd; 32] }).is_ok());
}

#[test]
fn uploaded_chunk_can_be_downloaded() {
    let p = prepare_content_chunk(b"round trip".to_vec(), &batch(), 20, 16, &key())
        .ok()
        .expect("prepared");
    let c = get(&p.address, RetrieveReply::Chunk(p.body.clone())).expect("accepted");
    assert_eq!(c.wire, p.body);
    assert_eq!(payload_of(&c.wire), b"round trip");
}

#[test]
fn what_is_not_the_chunk_asked_for_is_refused() {
    let c = chunk_of(b"hello");
    assert!(accept_chunk(&c.address, c.wire.clone()).is_ok());

    let mut tampered = c.wire.clone();
    tampered[8] ^= 1;
    match accept_chunk(&c.address, tampered.clone()) {
        Err(StoreError::Mismatch { expected, actual }) => {
            assert_eq!(expected, c.address);
            assert_eq!(actual, chunk_of(&tampered[8..]).address);
            let e = StoreError::Mismatch { expected, actual };
            assert_eq!(
                e.message(),
                format!(
                    "chunk error: Chunk address verification failed: expected {}, got {}",
                    show_0x(&expected.bytes),
                    show_0x(&actual.bytes)
                )
            );
        }
        _ => panic!("a tampered chunk has another address"),
    }

    match accept_chunk(&c.address, Vec::new()) {
        Err(StoreError::NotFound(t)) => assert_eq!(t, address_hex(&c.address)),
        _ => panic!("no bytes mean no chunk"),
    }
    match accept_chunk(&c.address, vec![1, 2]) {
        Err(e) => assert_eq!(
            e.message(),
            "chunk error: Invalid chunk size: insufficient data for span (expected: 8, got: 2)"
        ),
        _ => panic!("too short"),
    }
    match accept_chunk(&c.address, vec![9, 0, 0, 0, 0, 0, 0, 0, 1]) {
        Err(e) => assert_eq!(
            e.message(),
            "chunk error: Invalid chunk size: span does not match data size (expected: 9, got: 1)"
        ),
        _ => panic!("the span is not the length"),
    }
    match accept_chunk(&c.address, vec![0; 8 + 4097]) {
        Err(e) => assert_eq!(
            e.message(),
            "chunk error: Invalid chunk size: data exceeds maximum chunk size (expected: 4096, got: 4097)"
        ),
        _ => panic!("too long"),
    }
}

#[test]
fn the_hash_decides_on_returned_bytes() {
    let address = Bytes32 { bytes: [1; 32] };
    let other = Bytes32 { bytes: [2; 32] };
    assert!(accept_hashed(&address, vec![5], Ok(address)).is_ok());
    assert!(matches!(
        accept_hashed(&address, vec![5], Ok(other)),
        Err(StoreError::Mismatch { .. })
    ));
    assert!(matches!(
        accept_hashed(&address, vec![5], Err("bad".to_string())),
        Err(StoreError::Malformed(_))
    ));
    assert!(matches!(accept_hashed(&address, vec![], Ok(address)), Err(StoreError::NotFound(_))));
}

#[test]
fn replies_without_a_chunk_are_misses() {
    let c = chunk_of(b"x");
    match get(&c.address, RetrieveReply::Error("gone".to_string())) {
        Err(e) => assert_eq!(e.message(), "chunk not found: gone"),
        Ok(_) => panic!("an error is no chunk"),
    }
    match get(&c.address, RetrieveReply::Nothing) {
        Err(e) => assert_eq!(e.message(), format!("chunk not found: {}", address_hex(&c.address))),
        Ok(_) => panic!("nothing is no chunk"),
    }
    assert_eq!(StoreError::Transport("t".to_string()).message(), "grpc transport error: t");
    assert_eq!(StoreError::StreamReset.message(), "retrieve stream reset");
}

#[test]
fn uploads_take_the_next_slot() {
    let mut stamper = Stamper::new(&batch(), 16, 16, &key());
    let c = chunk_of(b"put me");
    let q = put_request(&mut stamper, &c, true).ok().expect("stamped");
    assert_eq!(q.data, c.wire);
    assert_eq!(q.address, c.address);
    assert_eq!(q.kind, ChunkKind::Content);
    assert!(q.validate);
    assert_eq!(&q.stamp[..32], &batch().bytes);
    assert_eq!(&q.stamp[34..36], &c.address.bytes[..2]);
    assert_eq!(stamp_signer(&q.stamp, &c.address), address_of(&key()));
    // There is one slot to a bucket.
    match put_request(&mut stamper, &c, false) {
        Err(e) => assert!(e.message().starts_with("stamping error: bucket full: bucket ")),
        Ok(_) => panic!("the bucket is full"),
    }
}

#[test]
fn upload_replies_are_told_apart() {
    assert!(put_outcome(UploadReply::Receipt).is_ok());
    assert_eq!(
        put_outcome(UploadReply::Error("full".to_string())).err().expect("error").message(),
        "stamping error: full"
    );
    assert_eq!(
        put_outcome(UploadReply::Nothing).err().expect("error").message(),
        "stamping error: upload returned no result"
    );
    assert!(has(Some(true)));
    assert!(!has(Some(false)));
    assert!(!has(None));
    let _ = read_only_stamper(&key());
}

#[test]
fn downloads_write_the_payload_or_the_raw_body() {
    let wire = chunk_of(b"data").wire;
    assert_eq!(downloaded(RetrieveReply::Chunk(wire.clone()), false).ok().expect("payload"), b"data");
    assert_eq!(downloaded(RetrieveReply::Chunk(wire.clone()), true).ok().expect("raw"), wire);
    assert_eq!(downloaded(RetrieveReply::Chunk(vec![1]), false).ok().expect("short"), vec![1]);
    let e = downloaded(RetrieveReply::Error("no".to_string()), false).err().expect("error");
    assert_eq!(e.message(), "chunk retrieval failed: no");
    let e = downloaded(RetrieveReply::Nothing, false).err().expect("error");
    assert_eq!(e.message(), "chunk retrieval returned no result");
}

#[test]
fn input_is_a_file_or_stdin() {
    assert!(matches!(read_input(Some("f"), false), Ok(Input::File(p)) if p == "f"));
    assert!(matches!(read_input(None, true), Ok(Input::Stdin)));
    assert_eq!(
        read_input(Some("f"), true).err().expect("both").message(),
        "pass either a file or --stdin, not both"
    );
    assert_eq!(
        read_input(None, false).err().expect("neither").message(),
        "no input: pass a file path or --stdin"
    );
}

#[test]
fn uploads_are_reported() {
    let address = Bytes32 { bytes: [0xab; 32] };
    let lines = uploaded(
        &address,
        ReceiptReply::Receipt { storer: vec![0x0f, 0xf0], storage_radius: 11 },
    )
    .ok()
    .expect("taken");
    assert_eq!(
        lines,
        vec![
            format!("Uploaded chunk 0x{}", "ab".repeat(32)),
            "Accepted by storer: 0x0ff0".to_string(),
            "Storage radius:     11".to_string(),
        ]
    );
    let e = uploaded(&address, ReceiptReply::Error("bad".to_string())).err().expect("error");
    assert_eq!(e.message(), "chunk upload failed: bad");
    let e = uploaded(&address, ReceiptReply::Nothing).err().expect("error");
    assert_eq!(e.message(), "chunk upload returned no result");
    assert!(matches!(e, ChunkCommandError::NoUpload));
}

#[test]
fn stamping_decides_on_a_chunk() {
    let c = chunk_of(b"stamp me");
    let p = prepared(c.address, c.wire.clone(), Ok(vec![9; 113])).ok().expect("prepared");
    assert_eq!((p.address, p.body, p.stamp), (c.address, c.wire.clone(), vec![9; 113]));
    let fault = || Err(StampFault::Signer("no key".to_string()));
    let e = prepared(c.address, vec![], fault()).err().expect("refused");
    assert!(matches!(e, PrepareError::Stamp(_)));
    assert_eq!(e.cause(), "no key");

    let q = stamped_request(&c, Ok(vec![9; 113]), true).ok().expect("a request");
    assert_eq!((q.address, q.data, q.stamp), (c.address, c.wire.clone(), vec![9; 113]));
    assert_eq!((q.kind, q.validate), (ChunkKind::Content, true));
    let e = stamped_request(&c, fault(), true).err().expect("refused");
    assert_eq!(e.message(), "stamping error: no key");
}
