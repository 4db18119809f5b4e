use dipper::bytes::{Bytes20, Bytes32};
use dipper::discover::Usage;
use dipper::store::ChunkKind;
use dipper::usage::{
    can_flush, fetched, floor_of, flush_snapshot, not_planned, published_floor, root_address,
    seal_timestamp, sealed_at, upload_request, usage_of, FetchReply, OpenAction, Opening,
    PlanFault, SealFault, SealedChunk, UsageBatch, UsageError,
};
use dipper::wallet::{address_of, key_from_bytes, SigningKey};
use nectar_postage_usage::Snapshot;
use std::collections::HashMap;

fn key() -> SigningKey {
    key_from_bytes(Bytes32 { bytes: [7; 32] }).expect("a key")
}

fn batch() -> UsageBatch {
    UsageBatch {
        id: Bytes32 { bytes: [9; 32] },
        owner: address_of(&key()),
        depth: 20,
        bucket_depth: 16,
        immutable: false,
    }
}

type Store = HashMap<[u8; 32], Vec<u8>>;

fn fetch(store: &Store, address: &Bytes32) -> FetchReply {
    match store.get(&address.bytes) {
        Some(wire) => FetchReply::Body(wire.clone()),
        None => FetchReply::NotFound,
    }
}

fn open(store: &Store, batch: UsageBatch) -> Result<Snapshot, UsageError> {
    let mut opening = Opening::new(batch);
    let mut address = opening.begin();
    loop {
        match opening.on_fetched(fetched(fetch(store, &address))) {
            OpenAction::Fetch(next) => address = next,
            OpenAction::Done(s) => return Ok(s),
            OpenAction::Fail(e) => return Err(e),
        }
    }
}

fn upload(store: &mut Store, chunks: Vec<SealedChunk>) {
    for c in chunks {
        let q = upload_request(c);
        assert_eq!(q.kind, ChunkKind::SingleOwner);
        assert!(!q.validate);
        store.insert(q.address.bytes, q.data);
    }
}

fn flush(
    store: &Store,
    s: &mut Snapshot,
    key: &SigningKey,
    now: u64,
) -> Result<Vec<SealedChunk>, UsageError> {
    let owner = batch().owner;
    let root = fetched(fetch(store, &root_address(s, &owner)));
    assert!(can_flush(s));
    flush_snapshot(s, &owner, key, root, now)
}

fn snapshot_of(usage: Usage) -> (u64, u32) {
    match usage {
        Usage::Snapshot { sequence, peak } => (sequence, peak),
        Usage::Unknown => panic!("a snapshot has a usage"),
    }
}

#[test]
fn unpublished_batch_opens_fresh() {
    let s = open(&Store::new(), batch()).expect("fresh");
    assert_eq!(snapshot_of(usage_of(&s)), (0, 0));
    assert_eq!(sealed_at(&s), None);
}

#[test]
fn chunks_stand_at_the_usage_addresses() {
    let b = batch();
    let mut name = b"swarm-batch-usage".to_vec();
    name.extend_from_slice(&b.id.bytes);
    name.extend_from_slice(&[0, 0]);
    let mut owned = alloy_primitives::keccak256(&name).to_vec();
    owned.extend_from_slice(&b.owner.bytes);
    let expected = alloy_primitives::keccak256(&owned).0;
    assert_eq!(Opening::new(b).begin().bytes, expected);
    let s = open(&Store::new(), b).expect("fresh");
    assert_eq!(root_address(&s, &b.owner).bytes, expected);
}

#[test]
fn flushed_snapshots_open_again() {
    let mut store = Store::new();
    let mut s = open(&store, batch()).expect("fresh");
    let chunks = flush(&store, &mut s, &key(), 1000).expect("flushed");
    assert_eq!(chunks[0].address, Opening::new(batch()).begin());
    for c in &chunks {
        assert_eq!(c.stamp.len(), 113);
        assert_eq!(&c.stamp[..32], &[9; 32]);
        // The bucket is the address's leading 16 bits; the time is the clock's.
        assert_eq!(&c.stamp[34..36], &c.address.bytes[..2]);
        assert_eq!(&c.stamp[40..48], &1000u64.to_be_bytes());
    }
    upload(&mut store, chunks);
    assert_eq!(sealed_at(&s), Some(1000));

    let again = open(&store, batch()).expect("recovered");
    assert_eq!(usage_of(&again), usage_of(&s));
    let (sequence, peak) = snapshot_of(usage_of(&again));
    assert_eq!(sequence, 1);
    assert!(peak >= 1, "the snapshot's own chunks take slots");
    assert_eq!(sealed_at(&again), None);
}

#[test]
fn each_flush_is_a_version_above() {
    let mut store = Store::new();
    let mut s = open(&store, batch()).expect("fresh");
    let first = flush(&store, &mut s, &key(), 1000).expect("flushed");
    upload(&mut store, first);
    // A clock that stands still is lifted past the last seal.
    let second = flush(&store, &mut s, &key(), 1000).expect("flushed");
    assert_eq!(&second[0].stamp[40..48], &1001u64.to_be_bytes());
    upload(&mut store, second);
    assert_eq!(snapshot_of(usage_of(&s)).0, 2);
    let root = fetched(fetch(&store, &root_address(&s, &batch().owner)));
    assert_eq!(published_floor(root).ok(), Some(2));
}

#[test]
fn stale_snapshots_are_not_flushed() {
    let mut store = Store::new();
    let mut stale = open(&store, batch()).expect("fresh");
    let mut s = open(&store, batch()).expect("fresh");
    let chunks = flush(&store, &mut s, &key(), 1000).expect("flushed");
    upload(&mut store, chunks);
    match flush(&store, &mut stale, &key(), 1000) {
        Err(e) => {
            assert!(matches!(e, UsageError::Stale { next: 1, floor: 1 }));
            assert_eq!(e.message(), "persist sequence 1 does not exceed published floor 1");
        }
        Ok(_) => panic!("stale"),
    }
    assert_eq!(snapshot_of(usage_of(&stale)), (0, 0));
}

#[test]
fn unreadable_floor_ends_a_flush() {
    let mut s = open(&Store::new(), batch()).expect("fresh");
    let root = fetched(FetchReply::Failed("down".to_string()));
    match flush_snapshot(&mut s, &batch().owner, &key(), root, 1) {
        Err(e) => assert_eq!(e.message(), "grpc transport error: down"),
        Ok(_) => panic!("the floor is unknown"),
    }
    assert!(published_floor(Ok(Some(vec![1, 2, 3]))).is_err());
    assert_eq!(published_floor(Ok(None)).ok(), Some(0));
    assert_eq!(sealed_at(&s), None);
}

#[test]
fn only_the_owner_seals() {
    let stranger = key_from_bytes(Bytes32 { bytes: [8; 32] }).expect("a key");
    let mut s = open(&Store::new(), batch()).expect("fresh");
    match flush(&Store::new(), &mut s, &stranger, 1) {
        Err(UsageError::Seal(f)) => {
            assert!(matches!(f, SealFault::NotTheOwner));
            assert_eq!(
                UsageError::Seal(f).message(),
                "sealed chunk address does not match plan"
            );
        }
        _ => panic!("not the owner"),
    }
    let late = UsageError::Seal(SealFault::NotLater { timestamp: 1, previous: 2 });
    assert_eq!(
        late.message(),
        "seal timestamp 1 does not exceed previous seal timestamp 2"
    );
    assert_eq!(UsageError::OutOfStep.message(), "unexpected reply from the node");
}

#[test]
fn missing_leaf_is_corruption() {
    let mut store = Store::new();
    let mut s = open(&store, batch()).expect("fresh");
    // Counters of many different buckets need leaves.
    let owner = alloy_primitives::Address::from(batch().owner.bytes);
    let mut issuer = s.issuer(owner);
    for bucket in 0..30_000u16 {
        let mut address = [0; 32];
        address[..2].copy_from_slice(&bucket.to_be_bytes());
        issuer
            .record_address(&nectar_postage_usage::SwarmAddress::from(address))
            .expect("a free slot");
    }
    let chunks = flush(&store, &mut s, &key(), 1).expect("flushed");
    assert!(chunks.len() > 1);
    // No two of the snapshot's own chunks share a slot of a bucket.
    let held = s.reserved_stamp_indices(&owner);
    assert_eq!(held.len(), s.allocated_slots().len());
    for (i, index) in held.iter().enumerate() {
        assert!(!held[..i].contains(index));
    }
    upload(&mut store, chunks);
    let again = open(&store, batch()).expect("recovered");
    assert_eq!(usage_of(&again), usage_of(&s));
    assert_eq!(again.table().counts(), s.table().counts());

    let mut opening = Opening::new(batch());
    let root = opening.begin();
    let leaf = match opening.on_fetched(fetched(fetch(&store, &root))) {
        OpenAction::Fetch(leaf) => leaf,
        _ => panic!("the root names a leaf"),
    };
    store.remove(&leaf.bytes);
    match open(&store, batch()) {
        Err(e) => {
            assert!(matches!(e, UsageError::MissingLeaf { index: 1 }));
            assert_eq!(
                e.message(),
                "published usage root commits to leaf 1 but the network reports it absent \
                 (snapshot corruption)"
            );
        }
        Ok(_) => panic!("a leaf is missing"),
    }
}

#[test]
fn failed_reads_open_nothing() {
    let mut opening = Opening::new(batch());
    match opening.on_fetched(fetched(FetchReply::Failed("down".to_string()))) {
        OpenAction::Fail(e) => assert_eq!(e.message(), "grpc transport error: down"),
        _ => panic!("a failed read"),
    }
    assert!(matches!(
        opening.on_fetched(Ok(None)),
        OpenAction::Fail(UsageError::OutOfStep)
    ));
    let mut opening = Opening::new(batch());
    assert!(matches!(
        opening.on_fetched(Ok(Some(vec![0; 10]))),
        OpenAction::Fail(UsageError::Snapshot(_))
    ));
}

#[test]
fn unsupported_geometry_is_refused() {
    let b = UsageBatch { depth: 15, ..batch() };
    match open(&Store::new(), b) {
        Err(e) => assert_eq!(
            e.message(),
            "unsupported batch geometry: depth 15, bucket depth 16"
        ),
        Ok(_) => panic!("the depth is below the bucket depth"),
    }
    assert!(open(&Store::new(), UsageBatch { depth: 48, ..batch() }).is_err());
    assert!(open(&Store::new(), UsageBatch { depth: 47, ..batch() }).is_ok());
    assert!(open(&Store::new(), UsageBatch { bucket_depth: 17, ..batch() }).is_err());
    assert!(open(&Store::new(), UsageBatch { depth: 0, bucket_depth: 0, ..batch() }).is_ok());
    let flat = UsageBatch { depth: 4, bucket_depth: 0, ..batch() };
    assert!(!can_flush(&open(&Store::new(), flat).expect("fresh")));
}

#[test]
fn replies_are_payloads_absence_or_errors() {
    assert!(matches!(fetched(FetchReply::NotFound), Ok(None)));
    assert!(matches!(fetched(FetchReply::Body(vec![])), Ok(None)));
    let refused = |wire: Vec<u8>| match fetched(FetchReply::Body(wire)) {
        Err(e) => e.message(),
        Ok(_) => panic!("no single-owner chunk"),
    };
    assert_eq!(
        refused(vec![0; 96]),
        "usage chunk decode error: Invalid chunk size: insufficient data for single-owner chunk \
         (expected: 97, got: 96)"
    );
    let mut wire = vec![0; 105];
    wire[96] = 2;
    assert_eq!(
        refused(wire.clone()),
        "usage chunk decode error: Signature error: invalid parity: 2"
    );
    wire[96] = 34;
    assert_eq!(
        refused(wire.clone()),
        "usage chunk decode error: Signature error: invalid parity: 34"
    );
    wire[96] = 35;
    assert!(fetched(FetchReply::Body(wire.clone())).is_ok());
    wire[96] = 28;
    assert!(matches!(fetched(FetchReply::Body(wire.clone())), Ok(Some(p)) if p.is_empty()));
    wire[97] = 1;
    assert_eq!(
        refused(wire.clone()),
        "usage chunk decode error: Invalid chunk size: span does not match data size \
         (expected: 1, got: 0)"
    );
    wire.push(0xab);
    assert!(matches!(fetched(FetchReply::Body(wire)), Ok(Some(p)) if p == [0xab]));
}

#[test]
fn seal_times_increase() {
    assert_eq!(seal_timestamp(10, None), 10);
    assert_eq!(seal_timestamp(10, Some(9)), 10);
    assert_eq!(seal_timestamp(10, Some(10)), 11);
    assert_eq!(seal_timestamp(10, Some(50)), 51);
}

#[test]
fn owners_keep_separate_snapshots() {
    let other = UsageBatch { owner: Bytes20 { bytes: [1; 20] }, ..batch() };
    assert_ne!(Opening::new(batch()).begin(), Opening::new(other).begin());
}

#[test]
fn version_without_a_slot_is_not_planned() {
    let full = UsageBatch { depth: 16, immutable: true, ..batch() };
    let mut s = open(&Store::new(), full).expect("fresh");
    let root = root_address(&s, &full.owner);
    let owner = alloy_primitives::Address::from(full.owner.bytes);
    s.issuer(owner)
        .record_address(&nectar_postage_usage::SwarmAddress::from(root.bytes))
        .expect("the bucket's only slot");
    let counts = s.table().counts().to_vec();
    match flush_snapshot(&mut s, &full.owner, &key(), Ok(None), 5) {
        Err(UsageError::Snapshot(text)) => assert!(!text.is_empty()),
        _ => panic!("the root has no slot"),
    }
    assert_eq!(s.table().counts(), counts);
    assert_eq!(snapshot_of(usage_of(&s)).0, 0);
    assert_eq!(sealed_at(&s), None);

    assert!(matches!(
        not_planned(PlanFault::Stale { next: 3, floor: 4 }),
        UsageError::Stale { next: 3, floor: 4 }
    ));
    assert_eq!(not_planned(PlanFault::Other("full".to_string())).message(), "full");
}

#[test]
fn a_root_is_followed_by_its_leaves() {
    let mut opening = Opening::new(batch());
    let first = match opening.on_root(vec![0; 66], Ok((5, 2))) {
        OpenAction::Fetch(a) => a,
        _ => panic!("the first leaf is wanted"),
    };
    let mut name = b"swarm-batch-usage".to_vec();
    name.extend_from_slice(&batch().id.bytes);
    name.extend_from_slice(&[0, 1]);
    let mut owned = alloy_primitives::keccak256(&name).to_vec();
    owned.extend_from_slice(&batch().owner.bytes);
    assert_eq!(first.bytes, alloy_primitives::keccak256(&owned).0);
    assert!(matches!(opening.on_fetched(Ok(Some(vec![1]))), OpenAction::Fetch(_)));
    assert!(matches!(
        opening.on_fetched(Ok(None)),
        OpenAction::Fail(UsageError::MissingLeaf { index: 2 })
    ));

    let mut opening = Opening::new(batch());
    match opening.on_root(vec![], Err("bad".to_string())) {
        OpenAction::Fail(e) => assert_eq!(e.message(), "bad"),
        _ => panic!("a bad root"),
    }
    // A root that names no leaves is assembled at once; these bytes are no root.
    let mut opening = Opening::new(batch());
    match opening.on_root(vec![0; 66], Ok((5, 0))) {
        OpenAction::Fail(UsageError::Snapshot(text)) => {
            let reason = published_floor(Ok(Some(vec![0; 66]))).err().expect("no root");
            assert_eq!(text, reason.message());
        }
        _ => panic!("no root"),
    }
    assert_eq!(floor_of(Ok((5, 2))).ok(), Some(5));
    assert_eq!(floor_of(Err("bad".to_string())).err().expect("an error").message(), "bad");
}

#[test]
fn version_that_cannot_be_encoded_keeps_all_but_its_number() {
    // Counters of 1000 and one of zero, beside a thousand allocated slots: there
    // is room for them in a root as it stands, but not for the root's next form.
    let mut fresh = open(&Store::new(), batch()).expect("fresh");
    let flushed = flush(&Store::new(), &mut fresh, &key(), 1).expect("flushed");
    let mut root = flushed[0].wire[105..109].to_vec();
    root.extend_from_slice(&batch().id.bytes);
    root.extend_from_slice(&[27, 16, 0, 0]);
    root.extend_from_slice(&7u64.to_be_bytes());
    root.extend_from_slice(&65_535_000u64.to_be_bytes());
    root.extend_from_slice(&1000u32.to_be_bytes());
    root.extend_from_slice(&1000u16.to_be_bytes());
    root.extend_from_slice(&0u16.to_be_bytes());
    root.extend_from_slice(&1u16.to_be_bytes());
    root.extend_from_slice(&[0; 8]);
    for slot in 0..1000u32 {
        root.extend_from_slice(&slot.to_be_bytes());
    }
    assert_eq!(root.len(), 4074);
    let mut opening = Opening::new(UsageBatch { depth: 27, immutable: true, ..batch() });
    let mut s = match opening.on_fetched(Ok(Some(root))) {
        OpenAction::Done(s) => s,
        OpenAction::Fail(e) => panic!("{}", e.message()),
        OpenAction::Fetch(_) => panic!("the root names no leaf"),
    };
    let counts = s.table().counts().to_vec();
    assert_eq!(snapshot_of(usage_of(&s)), (7, 1000));
    match flush_snapshot(&mut s, &batch().owner, &key(), Ok(None), 5) {
        Err(UsageError::Snapshot(text)) => assert!(!text.is_empty()),
        _ => panic!("there is no encoding"),
    }
    assert_eq!(snapshot_of(usage_of(&s)), (8, 1000));
    assert_eq!(s.table().counts(), counts);
    assert_eq!(sealed_at(&s), None);
}

/// Stamps the chunk at an address for another use, so often.
fn use_slots(s: &mut Snapshot, address: &Bytes32, times: usize) {
    let mut issuer = s.issuer(alloy_primitives::Address::from(batch().owner.bytes));
    for _ in 0..times {
        issuer
            .record_address(&nectar_postage_usage::SwarmAddress::from(address.bytes))
            .expect("a slot");
    }
}

fn bucket(address: &Bytes32) -> usize {
    usize::from(address.bytes[0]) * 256 + usize::from(address.bytes[1])
}

#[test]
fn flushes_keep_the_counters() {
    let b = UsageBatch { immutable: true, ..batch() };
    let mut s = open(&Store::new(), b).expect("fresh");
    let root = root_address(&s, &b.owner);
    let other = Bytes32 { bytes: [0x5a; 32] };
    use_slots(&mut s, &root, 3);
    use_slots(&mut s, &other, 2);
    let before = s.table().counts().to_vec();
    let chunks = flush(&Store::new(), &mut s, &key(), 1).expect("flushed");
    assert_eq!(chunks.len(), 1);
    // The root takes the slot after the three that were given out.
    assert_eq!(s.allocated_slots(), [3]);
    assert_eq!(&chunks[0].stamp[36..40], &3u32.to_be_bytes());
    let mut expected = before;
    expected[bucket(&root)] = 4;
    assert_eq!(s.table().counts(), expected);

    let mut store = Store::new();
    upload(&mut store, chunks);
    let again = open(&store, b).expect("recovered");
    assert_eq!(again.table().counts(), expected);
    assert_eq!(again.allocated_slots(), [3]);
    assert_eq!(again.table().count(bucket(&other) as u32).ok(), Some(2));
}

#[test]
fn a_full_ring_starts_again() {
    // Two slots to a bucket: a counter at the end goes back to the first.
    let b = UsageBatch { depth: 17, ..batch() };
    let mut s = open(&Store::new(), b).expect("fresh");
    let root = root_address(&s, &b.owner);
    use_slots(&mut s, &root, 2);
    let mut expected = s.table().counts().to_vec();
    flush(&Store::new(), &mut s, &key(), 1).expect("flushed");
    assert_eq!(s.allocated_slots(), [0]);
    expected[bucket(&root)] = 1;
    assert_eq!(s.table().counts(), expected);
}

#[test]
fn later_flushes_overwrite_in_place() {
    let mut store = Store::new();
    let mut s = open(&store, batch()).expect("fresh");
    let first = flush(&store, &mut s, &key(), 1000).expect("flushed");
    let (address, slot, time) =
        (first[0].address, first[0].stamp[32..40].to_vec(), first[0].stamp[40..48].to_vec());
    upload(&mut store, first);
    use_slots(&mut s, &Bytes32 { bytes: [0x5a; 32] }, 3);
    let counts = s.table().counts().to_vec();
    let second = flush(&store, &mut s, &key(), 900).expect("flushed");
    assert_eq!(second[0].address, address);
    assert_eq!(second[0].stamp[32..40], slot);
    assert!(second[0].stamp[40..48] > time[..]);
    // No chunk is new, so no counter moves.
    assert_eq!(s.table().counts(), counts);
}

#[test]
fn sealed_chunks_are_signed_by_the_owner() {
    let mut s = open(&Store::new(), batch()).expect("fresh");
    let chunks = flush(&Store::new(), &mut s, &key(), 1000).expect("flushed");
    let owner = alloy_primitives::Address::from(batch().owner.bytes);
    for c in chunks {
        let signed = nectar_primitives::SingleOwnerChunk::<4096>::try_from(c.wire.as_slice())
            .expect("a single-owner chunk");
        assert_eq!(signed.owner().expect("a signature"), owner);
        let mut forged = c.wire.clone();
        forged[40] ^= 1;
        let forged = nectar_primitives::SingleOwnerChunk::<4096>::try_from(forged.as_slice())
            .expect("a single-owner chunk");
        assert!(forged.owner().ok() != Some(owner));
        let stamp = nectar_postage::Stamp::try_from_slice(&c.stamp).expect("a stamp");
        let address = nectar_postage_usage::SwarmAddress::from(c.address.bytes);
        assert_eq!(stamp.timestamp(), 1000);
        assert_eq!(stamp.recover_signer(&address).expect("a signature"), owner);
    }
}
