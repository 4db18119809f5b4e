//! Content chunks and their postage: building a chunk from data, finding its
//! address, and stamping it.

use vstd::arithmetic::power2::pow2;
use vstd::prelude::*;

use crate::bytes::{be_bytes, be_value, le_bytes, le_value, Bytes32};
use crate::hashing::keccak;
use crate::text::{dec, decimal};
use crate::wallet::SigningKey;

verus! {

/// The largest payload of a chunk.
pub open spec fn max_payload() -> nat {
    4096
}

/// A chunk's wire body: the length of its data in eight bytes, the least
/// significant first, and then the data.
pub open spec fn wire_of(data: Seq<u8>) -> Seq<u8> {
    le_bytes(data.len(), 8) + data
}

/// Whether bytes are the wire body of a content chunk: a span, no more than
/// the largest payload, and as much as the span says where it fits in one
/// chunk.
pub open spec fn is_content(wire: Seq<u8>) -> bool {
    let span = le_value(wire.take(8));
    &&& wire.len() >= 8
    &&& wire.len() - 8 <= max_payload()
    &&& span <= max_payload() ==> wire.len() - 8 == span
}

/// The words for a wrong size.
pub open spec fn size_text(what: Seq<char>, expected: nat, actual: nat) -> Seq<char> {
    "Invalid chunk size: "@ + what + " (expected: "@ + dec(expected) + ", got: "@ + dec(actual)
        + ")"@
}

/// What is wrong with bytes that are no content chunk.
pub open spec fn content_fault(wire: Seq<u8>) -> Seq<char> {
    if wire.len() < 8 {
        size_text("insufficient data for span"@, 8, wire.len())
    } else if wire.len() - 8 > max_payload() {
        size_text("data exceeds maximum chunk size"@, max_payload(), (wire.len() - 8) as nat)
    } else {
        size_text(
            "span does not match data size"@,
            le_value(wire.take(8)),
            (wire.len() - 8) as nat,
        )
    }
}

/// The address of a content chunk: the hash of the binary Merkle tree over its
/// wire body.
pub uninterp spec fn bmt_address(wire: Seq<u8>) -> Seq<u8>;

/// `nectar_primitives::ContentChunk::new`, and the new chunk's `address` and
/// its bytes.
///
/// Trusted: data of at most 4096 bytes makes a chunk, whose bytes are the wire
/// body of the data and whose address is a function of those bytes alone;
/// longer data is refused. What the address of given bytes is, is left unsaid.
#[verifier::external_body]
fn build_content(data: Vec<u8>) -> (r: Result<(Bytes32, Vec<u8>), String>)
    ensures
        match r {
            Ok((address, wire)) => data@.len() <= max_payload() && wire@ == wire_of(data@)
                && address@ == bmt_address(wire_of(data@)),
            Err(text) => data@.len() > max_payload() && text@ == size_text(
                "data exceeds maximum chunk size"@,
                max_payload(),
                data@.len(),
            ),
        },
{
    let chunk = nectar_primitives::DefaultContentChunk::new(data).map_err(|e| e.to_string())?;
    let address = Bytes32 { bytes: (*nectar_primitives::Chunk::address(&chunk)).into() };
    let wire: nectar_primitives::bytes::Bytes = chunk.into();
    Ok((address, wire.to_vec()))
}

/// `ContentChunk::try_from` on a wire body, and the chunk's `address`.
///
/// Trusted: the body is accepted if and only if it is that of a content chunk;
/// the address is a function of the body alone.
#[verifier::external_body]
pub(crate) fn content_address(wire: &[u8]) -> (r: Result<Bytes32, String>)
    ensures
        match r {
            Ok(address) => is_content(wire@) && address@ == bmt_address(wire@),
            Err(text) => !is_content(wire@) && text@ == content_fault(wire@),
        },
{
    let chunk = nectar_primitives::DefaultContentChunk::try_from(wire).map_err(|e| e.to_string())?;
    Ok(Bytes32 { bytes: (*nectar_primitives::Chunk::address(&chunk)).into() })
}

/// The payload of a wire body: what follows the eight bytes of its span, or
/// all of a body that is shorter.
pub fn payload_of(body: &[u8]) -> (p: &[u8])
    ensures
        p@ == (if body@.len() >= 8 {
            body@.skip(8)
        } else {
            body@
        }),
{
    if body.len() >= 8 {
        let p = vstd::slice::slice_subrange(body, 8, body.len());
        assert(p@ =~= body@.skip(8));
        p
    } else {
        body
    }
}

/// Whether a batch of this depth can be stamped with: it has buckets, at most
/// 2^32 of them, and each has between one slot and 2^31.
pub open spec fn can_stamp(depth: u8, bucket_depth: u8) -> bool {
    1 <= bucket_depth <= 32 && bucket_depth <= depth < bucket_depth + 32
}

/// Whether a batch of this depth can be stamped with.
pub fn is_stampable(depth: u8, bucket_depth: u8) -> (r: bool)
    ensures
        r == can_stamp(depth, bucket_depth),
{
    1 <= bucket_depth && bucket_depth <= 32 && bucket_depth <= depth && depth - bucket_depth < 32
}

/// The bucket of an address: its leading `bucket_depth` bits.
pub open spec fn bucket_of(address: Seq<u8>, bucket_depth: nat) -> nat {
    be_value(address.take(4)) / pow2((32 - bucket_depth) as nat)
}

/// The number of slots in a bucket.
pub open spec fn slots(depth: nat, bucket_depth: nat) -> nat {
    pow2((depth - bucket_depth) as nat)
}

/// The 65 bytes of a key's signature (EIP-191) on a message, or the words for a
/// signature that fails.
pub uninterp spec fn message_signature(key: Seq<u8>, message: Seq<u8>) -> Result<
    Seq<u8>,
    Seq<char>,
>;

/// What a stamp signs: the hash of the chunk's address, the batch id, the slot
/// and the time.
pub open spec fn stamp_digest(address: Seq<u8>, batch: Seq<u8>, slot_and_time: Seq<u8>) -> Seq<u8> {
    keccak(address + batch + slot_and_time)
}

/// Slot `index` of bucket `bucket` and a time, as a stamp holds them.
pub open spec fn slot_at(bucket: nat, index: nat, time: u64) -> Seq<u8> {
    be_bytes(bucket, 4) + be_bytes(index, 4) + be_bytes(time as nat, 8)
}

/// Whether a key's signature on the stamp of an address for a slot fails, with
/// these words, at some time.
pub open spec fn signing_fails(
    key: Seq<u8>,
    batch: Seq<u8>,
    address: Seq<u8>,
    bucket: nat,
    index: nat,
    text: Seq<char>,
) -> bool {
    exists|time: u64|
        message_signature(key, stamp_digest(address, batch, #[trigger] slot_at(bucket, index, time)))
            == Err::<Seq<u8>, Seq<char>>(text)
}

/// Whether 113 bytes name slot `index` of bucket `bucket` of `batch`: the batch
/// id, the bucket, the index, a time and a signature.
pub open spec fn names_slot(stamp: Seq<u8>, batch: Seq<u8>, bucket: nat, index: nat) -> bool {
    &&& stamp.len() == 113
    &&& stamp.take(32) == batch
    &&& stamp.subrange(32, 36) == be_bytes(bucket, 4)
    &&& stamp.subrange(36, 40) == be_bytes(index, 4)
}

/// Whether bytes are the stamp of `key` on `address` for slot `index` of
/// bucket `bucket` of `batch`: they name the slot, and they end in the key's
/// signature on the address, the batch, the slot and the time.
pub open spec fn is_stamp(
    stamp: Seq<u8>,
    key: Seq<u8>,
    batch: Seq<u8>,
    address: Seq<u8>,
    bucket: nat,
    index: nat,
) -> bool {
    &&& names_slot(stamp, batch, bucket, index)
    &&& message_signature(key, stamp_digest(address, batch, stamp.subrange(32, 48))) == Ok::<
        Seq<u8>,
        Seq<char>,
    >(stamp.subrange(48, 113))
}

/// Why a chunk could not be stamped.
#[derive(Clone, Debug)]
pub enum StampFault {
    /// Every slot of the chunk's bucket has been given out.
    BucketFull { bucket: u32, capacity: u32 },
    /// The signature failed.
    Signer(String),
}

/// What stamps a batch's chunks: the slots given out so far in each bucket,
/// and the key that signs.
#[verifier::external_body]
pub struct Stamper {
    inner: nectar_postage_issuer::BatchStamper<
        nectar_postage_issuer::MemoryIssuer,
        alloy_signer_local::PrivateKeySigner,
    >,
}

/// The number of slots that a stamper has given out in each bucket.
pub uninterp spec fn stamp_counts(s: Stamper) -> Seq<u32>;

/// The batch that a stamper was made for.
pub uninterp spec fn stamp_batch(s: Stamper) -> Seq<u8>;

/// The depth and the bucket depth that a stamper was made with.
pub uninterp spec fn stamp_geometry(s: Stamper) -> (u8, u8);

/// The key that a stamper was made with.
pub uninterp spec fn stamp_key(s: Stamper) -> Seq<u8>;

/// `nectar_postage_issuer::MemoryIssuer::new` and `BatchStamper::new`.
///
/// Trusted: the new stamper has given out nothing in any of its
/// 2^`bucket_depth` buckets.
#[verifier::external_body]
fn open_stamper(batch: &Bytes32, depth: u8, bucket_depth: u8, key: &SigningKey) -> (s: Stamper)
    requires
        bucket_depth <= 32,
        key.wf(),
    ensures
        stamp_counts(s) == Seq::new(pow2(bucket_depth as nat), |i: int| 0u32),
        stamp_batch(s) == batch@,
        stamp_geometry(s) == (depth, bucket_depth),
        stamp_key(s) == key@,
{
    let batch = alloy_primitives::B256::from(batch.bytes);
    let secret = alloy_primitives::B256::from(key.secret.bytes);
    let signer = alloy_signer_local::PrivateKeySigner::from_bytes(&secret).expect("a valid key");
    let issuer = nectar_postage_issuer::MemoryIssuer::new(batch, depth, bucket_depth);
    Stamper { inner: nectar_postage_issuer::BatchStamper::new(issuer, signer) }
}

/// `<BatchStamper as nectar_postage_issuer::Stamper>::stamp`, and the stamp's
/// bytes.
///
/// Trusted: a full bucket is refused and nothing changes. Otherwise the next
/// slot of the address's bucket is given out, and the stamp names it and is
/// signed by the key. The slot stays given out where the signature fails, which
/// is a function of the key and what is signed alone. The time in the stamp is
/// the clock's, and is left unsaid.
#[verifier::external_body]
fn next_stamp(s: &mut Stamper, address: &Bytes32) -> (r: Result<Vec<u8>, StampFault>)
    requires
        can_stamp(stamp_geometry(*old(s)).0, stamp_geometry(*old(s)).1),
    ensures
        stamp_batch(*final(s)) == stamp_batch(*old(s)),
        stamp_geometry(*final(s)) == stamp_geometry(*old(s)),
        stamp_key(*final(s)) == stamp_key(*old(s)),
        ({
            let (depth, bucket_depth) = stamp_geometry(*old(s));
            let counts = stamp_counts(*old(s));
            let bucket = bucket_of(address@, bucket_depth as nat);
            let used = counts[bucket as int];
            let capacity = slots(depth as nat, bucket_depth as nat);
            let taken = counts.update(bucket as int, (used + 1) as u32);
            match r {
                Ok(stamp) => used < capacity && stamp_counts(*final(s)) == taken && names_slot(
                    stamp@,
                    stamp_batch(*old(s)),
                    bucket,
                    used as nat,
                ) && message_signature(
                    stamp_key(*old(s)),
                    stamp_digest(address@, stamp_batch(*old(s)), stamp@.subrange(32, 48)),
                ) == Ok::<Seq<u8>, Seq<char>>(stamp@.subrange(48, 113)),
                Err(StampFault::BucketFull { bucket: b, capacity: c }) => used >= capacity
                    && stamp_counts(*final(s)) == counts && b == bucket && c == capacity,
                Err(StampFault::Signer(text)) => used < capacity && stamp_counts(*final(s))
                    == taken && signing_fails(
                    stamp_key(*old(s)),
                    stamp_batch(*old(s)),
                    address@,
                    bucket,
                    used as nat,
                    text@,
                ),
            }
        }),
{
    let address = nectar_primitives::SwarmAddress::new(address.bytes);
    let stamped = nectar_postage_issuer::Stamper::stamp(&mut s.inner, &address);
    stamped.map(|stamp| stamp.to_bytes().to_vec()).map_err(
        |e| match e {
            nectar_postage_issuer::SigningError::Stamp(
                nectar_postage::StampError::BucketFull { bucket, capacity },
            ) => StampFault::BucketFull { bucket, capacity },
            e => StampFault::Signer(e.to_string()),
        },
    )
}

proof fn lemma_be_bound(b: Seq<u8>)
    ensures
        be_value(b) < pow2(8 * b.len()),
    decreases b.len(),
{
    if b.len() == 0 {
        vstd::arithmetic::power2::lemma2_to64();
    } else {
        lemma_be_bound(b.drop_last());
        let less = pow2(8 * (b.len() - 1) as nat);
        vstd::arithmetic::power2::lemma_pow2_adds(8 * (b.len() - 1) as nat, 8);
        vstd::arithmetic::power2::lemma2_to64();
        assert(pow2(8 * b.len()) == less * 256);
        assert(be_value(b.drop_last()) * 256 + 255 < less * 256) by (nonlinear_arith)
            requires
                be_value(b.drop_last()) + 1 <= less,
        ;
    }
}

/// The bucket of an address is one of the 2^`bucket_depth` buckets.
pub proof fn bucket_in_range(address: Seq<u8>, bucket_depth: nat)
    requires
        address.len() == 32,
        bucket_depth <= 32,
    ensures
        bucket_of(address, bucket_depth) < pow2(bucket_depth),
{
    let head = be_value(address.take(4));
    lemma_be_bound(address.take(4));
    let rest = pow2((32 - bucket_depth) as nat);
    vstd::arithmetic::power2::lemma_pow2_pos((32 - bucket_depth) as nat);
    vstd::arithmetic::power2::lemma_pow2_adds(bucket_depth, (32 - bucket_depth) as nat);
    assert(head / rest < pow2(bucket_depth)) by (nonlinear_arith)
        requires
            head < pow2(bucket_depth) * rest,
            rest > 0,
    ;
}

proof fn lemma_slots_bound(depth: u8, bucket_depth: u8)
    requires
        can_stamp(depth, bucket_depth),
    ensures
        1 <= slots(depth as nat, bucket_depth as nat) <= 0x8000_0000,
{
    let n = (depth - bucket_depth) as nat;
    vstd::arithmetic::power2::lemma2_to64();
    vstd::arithmetic::power2::lemma_pow2_pos(n);
    if n < 31 {
        vstd::arithmetic::power2::lemma_pow2_strictly_increases(n, 31);
    }
}

impl Stamper {
    /// One counter for each bucket, none above the number of its slots.
    pub open spec fn wf(self) -> bool {
        let (depth, bucket_depth) = stamp_geometry(self);
        let counts = stamp_counts(self);
        &&& counts.len() == pow2(bucket_depth as nat)
        &&& can_stamp(depth, bucket_depth) ==> forall|b: int|
            0 <= b < counts.len() ==> #[trigger] counts[b] <= slots(
                depth as nat,
                bucket_depth as nat,
            )
    }

    /// A stamper for a batch, signing with `key`; nothing has been stamped.
    pub fn new(batch: &Bytes32, depth: u8, bucket_depth: u8, key: &SigningKey) -> (s: Stamper)
        requires
            bucket_depth <= 32,
            key.wf(),
        ensures
            s.wf(),
            stamp_counts(s) == Seq::new(pow2(bucket_depth as nat), |i: int| 0u32),
            stamp_batch(s) == batch@,
            stamp_geometry(s) == (depth, bucket_depth),
            stamp_key(s) == key@,
    {
        open_stamper(batch, depth, bucket_depth, key)
    }

    /// Stamps a chunk: gives out the next slot of its bucket, and signs for
    /// it. A chunk whose bucket is full is refused, and nothing changes. A slot
    /// whose signature fails stays given out.
    pub fn stamp(&mut self, address: &Bytes32) -> (r: Result<Vec<u8>, StampFault>)
        requires
            old(self).wf(),
            can_stamp(stamp_geometry(*old(self)).0, stamp_geometry(*old(self)).1),
        ensures
            final(self).wf(),
            stamp_batch(*final(self)) == stamp_batch(*old(self)),
            stamp_geometry(*final(self)) == stamp_geometry(*old(self)),
            stamp_key(*final(self)) == stamp_key(*old(self)),
            ({
                let (depth, bucket_depth) = stamp_geometry(*old(self));
                let counts = stamp_counts(*old(self));
                let bucket = bucket_of(address@, bucket_depth as nat);
                let used = counts[bucket as int];
                let capacity = slots(depth as nat, bucket_depth as nat);
                let taken = counts.update(bucket as int, (used + 1) as u32);
                &&& bucket < counts.len()
                &&& match r {
                    Ok(stamp) => used < capacity && stamp_counts(*final(self)) == taken && is_stamp(
                        stamp@,
                        stamp_key(*old(self)),
                        stamp_batch(*old(self)),
                        address@,
                        bucket,
                        used as nat,
                    ),
                    Err(StampFault::BucketFull { bucket: b, capacity: c }) => used == capacity
                        && stamp_counts(*final(self)) == counts && b == bucket && c == capacity,
                    Err(StampFault::Signer(text)) => used < capacity && stamp_counts(*final(self))
                        == taken && signing_fails(
                        stamp_key(*old(self)),
                        stamp_batch(*old(self)),
                        address@,
                        bucket,
                        used as nat,
                        text@,
                    ),
                }
            }),
    {
        proof {
            bucket_in_range(address@, stamp_geometry(*self).1 as nat);
            lemma_slots_bound(stamp_geometry(*self).0, stamp_geometry(*self).1);
        }
        next_stamp(self, address)
    }
}

/// A run of stamps: from one entry to the next, one bucket's counter goes up
/// by one.
pub open spec fn stamp_run(counts: Seq<Seq<u32>>, buckets: Seq<int>) -> bool {
    &&& counts.len() == buckets.len() + 1
    &&& forall|k: int|
        #![trigger buckets[k]]
        0 <= k < buckets.len() ==> {
            &&& 0 <= buckets[k] < counts[k].len()
            &&& counts[k][buckets[k]] < u32::MAX
            &&& counts[k + 1] == counts[k].update(
                buckets[k],
                (counts[k][buckets[k]] + 1) as u32,
            )
        }
}

proof fn lemma_counters_grow(counts: Seq<Seq<u32>>, buckets: Seq<int>, i: int, j: int, b: int)
    requires
        stamp_run(counts, buckets),
        0 <= i <= j < counts.len(),
        0 <= b < counts[i].len(),
    ensures
        counts[j].len() == counts[i].len(),
        counts[i][b] <= counts[j][b],
    decreases j - i,
{
    if i < j {
        lemma_counters_grow(counts, buckets, i, j - 1, b);
        assert(0 <= buckets[j - 1] < counts[j - 1].len());
    }
}

proof fn lemma_same_length(counts: Seq<Seq<u32>>, buckets: Seq<int>, k: int)
    requires
        stamp_run(counts, buckets),
        0 <= k < counts.len(),
    ensures
        counts[k].len() == counts[0].len(),
    decreases k,
{
    if k > 0 {
        lemma_same_length(counts, buckets, k - 1);
        assert(0 <= buckets[k - 1] < counts[k - 1].len());
    }
}

/// No slot is given out twice: two stamps of one stamper name different slots,
/// in different buckets or with different indices, however many stamps lie
/// between them. Within a bucket the indices grow.
pub proof fn slots_never_collide(
    counts: Seq<Seq<u32>>,
    buckets: Seq<int>,
    stamps: Seq<Seq<u8>>,
    batch: Seq<u8>,
    i: int,
    j: int,
)
    requires
        stamp_run(counts, buckets),
        counts[0].len() <= 0x1_0000_0000,
        stamps.len() == buckets.len(),
        forall|k: int|
            0 <= k < stamps.len() ==> names_slot(
                #[trigger] stamps[k],
                batch,
                buckets[k] as nat,
                counts[k][buckets[k]] as nat,
            ),
        0 <= i < j < buckets.len(),
    ensures
        buckets[i] != buckets[j] || counts[i][buckets[i]] != counts[j][buckets[j]],
        buckets[i] == buckets[j] ==> counts[i][buckets[i]] < counts[j][buckets[j]],
        stamps[i].subrange(32, 40) != stamps[j].subrange(32, 40),
{
    let b = buckets[i];
    let c = buckets[j];
    assert(0 <= b < counts[i].len());
    assert(0 <= c < counts[j].len());
    assert(counts[i + 1][b] == counts[i][b] + 1);
    lemma_counters_grow(counts, buckets, i + 1, j, b);
    lemma_same_length(counts, buckets, i);
    lemma_same_length(counts, buckets, j);
    vstd::arithmetic::power2::lemma2_to64();
    crate::bytes::be_round_trip(b as nat, 4);
    crate::bytes::be_round_trip(c as nat, 4);
    crate::bytes::be_round_trip(counts[i][b] as nat, 4);
    crate::bytes::be_round_trip(counts[j][c] as nat, 4);
    let first = stamps[i];
    let second = stamps[j];
    assert(names_slot(first, batch, b as nat, counts[i][b] as nat));
    assert(names_slot(second, batch, c as nat, counts[j][c] as nat));
    assert(first.subrange(32, 36) =~= first.subrange(32, 40).take(4));
    assert(second.subrange(32, 36) =~= second.subrange(32, 40).take(4));
    assert(first.subrange(36, 40) =~= first.subrange(32, 40).skip(4));
    assert(second.subrange(36, 40) =~= second.subrange(32, 40).skip(4));
}

/// A chunk that is ready to be uploaded.
pub struct PreparedChunk {
    /// The chunk's address.
    pub address: Bytes32,
    /// The wire body: the span and then the data.
    pub body: Vec<u8>,
    /// The 113 bytes of the stamp.
    pub stamp: Vec<u8>,
}

/// Why a chunk could not be prepared.
#[derive(Clone, Debug)]
pub enum PrepareError {
    /// The data makes no content chunk.
    Content(String),
    /// The chunk could not be stamped.
    Stamp(StampFault),
}

/// A built chunk with what stamping it gave.
pub fn prepared(address: Bytes32, body: Vec<u8>, stamped: Result<Vec<u8>, StampFault>) -> (r: Result<
    PreparedChunk,
    PrepareError,
>)
    ensures
        match stamped {
            Ok(stamp) => match r {
                Ok(p) => p.address == address && p.body@ == body@ && p.stamp@ == stamp@,
                Err(_) => false,
            },
            Err(fault) => r == Err::<PreparedChunk, PrepareError>(PrepareError::Stamp(fault)),
        },
{
    match stamped {
        Ok(stamp) => Ok(PreparedChunk { address, body, stamp }),
        Err(fault) => Err(PrepareError::Stamp(fault)),
    }
}

/// Builds a content chunk from `data` and stamps it for a batch. The stamp
/// takes the first slot of the chunk's bucket.
pub fn prepare_content_chunk(
    data: Vec<u8>,
    batch: &Bytes32,
    depth: u8,
    bucket_depth: u8,
    key: &SigningKey,
) -> (r: Result<PreparedChunk, PrepareError>)
    requires
        key.wf(),
        data@.len() <= max_payload() ==> can_stamp(depth, bucket_depth),
    ensures
        match r {
            Ok(p) => {
                &&& data@.len() <= max_payload()
                &&& p.body@ == wire_of(data@)
                &&& p.address@ == bmt_address(wire_of(data@))
                &&& is_stamp(
                    p.stamp@,
                    key@,
                    batch@,
                    p.address@,
                    bucket_of(p.address@, bucket_depth as nat),
                    0,
                )
            },
            Err(PrepareError::Content(text)) => data@.len() > max_payload() && text@ == size_text(
                "data exceeds maximum chunk size"@,
                max_payload(),
                data@.len(),
            ),
            Err(PrepareError::Stamp(StampFault::BucketFull { .. })) => false,
            Err(PrepareError::Stamp(StampFault::Signer(text))) => data@.len() <= max_payload()
                && signing_fails(
                key@,
                batch@,
                bmt_address(wire_of(data@)),
                bucket_of(bmt_address(wire_of(data@)), bucket_depth as nat),
                0,
                text@,
            ),
        },
{
    match build_content(data) {
        Err(text) => Err(PrepareError::Content(text)),
        Ok((address, body)) => {
            let mut stamper = Stamper::new(batch, depth, bucket_depth, key);
            proof {
                lemma_slots_bound(depth, bucket_depth);
                bucket_in_range(address@, bucket_depth as nat);
            }
            let stamped = stamper.stamp(&address);
            prepared(address, body, stamped)
        },
    }
}

/// The words for a chunk that could not be stamped.
pub open spec fn stamp_message(f: StampFault) -> Seq<char> {
    match f {
        StampFault::BucketFull { bucket, capacity } => "bucket full: bucket "@ + dec(bucket as nat)
            + " has reached capacity "@ + dec(capacity as nat),
        StampFault::Signer(text) => text@,
    }
}

impl StampFault {
    /// The words for the fault.
    pub fn message(&self) -> (s: String)
        ensures
            s@ == stamp_message(*self),
    {
        match self {
            StampFault::BucketFull { bucket, capacity } => {
                let mut s = String::from_str("bucket full: bucket ");
                s.append(decimal(*bucket as u64).as_str());
                s.append(" has reached capacity ");
                s.append(decimal(*capacity as u64).as_str());
                s
            },
            StampFault::Signer(text) => text.clone(),
        }
    }
}

impl PrepareError {
    /// The words for the error.
    pub fn message(&self) -> (s: &'static str)
        ensures
            s@ == (match self {
                PrepareError::Content(_) => "failed to build content chunk"@,
                PrepareError::Stamp(_) => "failed to issue/sign postage stamp"@,
            }),
    {
        match self {
            PrepareError::Content(_) => "failed to build content chunk",
            PrepareError::Stamp(_) => "failed to issue/sign postage stamp",
        }
    }

    /// The words for what lies behind it.
    pub fn cause(&self) -> (s: String)
        ensures
            s@ == (match self {
                PrepareError::Content(text) => text@,
                PrepareError::Stamp(fault) => stamp_message(*fault),
            }),
    {
        match self {
            PrepareError::Content(text) => text.clone(),
            PrepareError::Stamp(fault) => fault.message(),
        }
    }
}

/// What is uploaded can be downloaded: the wire body built from data is that
/// of a content chunk, and its payload is the data.
pub proof fn built_chunk_holds_its_data(data: Seq<u8>)
    requires
        data.len() <= max_payload(),
    ensures
        is_content(wire_of(data)),
        wire_of(data).len() == 8 + data.len(),
        wire_of(data).skip(8) == data,
{
    vstd::arithmetic::power2::lemma2_to64();
    crate::bytes::le_round_trip(data.len(), 8);
    assert(wire_of(data).take(8) =~= le_bytes(data.len(), 8));
    assert(wire_of(data).skip(8) =~= data);
}

/// A stamp holds, in its 113 bytes, the batch, the bucket, the slot, a time and a
/// signature, and the signature is the key's on the hash of the chunk's address and
/// all that stands before it.
pub proof fn stamp_covers_its_fields(
    stamp: Seq<u8>,
    key: Seq<u8>,
    batch: Seq<u8>,
    address: Seq<u8>,
    bucket: nat,
    index: nat,
)
    requires
        is_stamp(stamp, key, batch, address, bucket, index),
        bucket < 0x1_0000_0000,
        index < 0x1_0000_0000,
    ensures
        stamp.len() == 113,
        stamp.take(32) == batch,
        bucket == 0x100_0000 * stamp[32] + 0x1_0000 * stamp[33] + 0x100 * stamp[34] + stamp[35],
        index == 0x100_0000 * stamp[36] + 0x1_0000 * stamp[37] + 0x100 * stamp[38] + stamp[39],
        message_signature(key, keccak(address + stamp.take(48))) == Ok::<Seq<u8>, Seq<char>>(
            stamp.skip(48),
        ),
{
    vstd::arithmetic::power2::lemma2_to64();
    crate::bytes::be_round_trip(bucket, 4);
    crate::bytes::be_round_trip(index, 4);
    crate::bytes::four_bytes(stamp.subrange(32, 36));
    crate::bytes::four_bytes(stamp.subrange(36, 40));
    assert(address + stamp.take(48) =~= address + batch + stamp.subrange(32, 48)) by {
        assert(stamp.take(48) =~= stamp.take(32) + stamp.subrange(32, 48));
    }
    assert(stamp.skip(48) =~= stamp.subrange(48, 113));
}

/// A batch can be stamped with where it has two buckets or more, up to two to the
/// power of 32, and each of them one slot or more, up to two to the power of 31; a
/// bucket has as many slots as the batch has chunks to a bucket.
pub proof fn batches_that_can_be_stamped(depth: u8, bucket_depth: u8)
    ensures
        can_stamp(depth, bucket_depth) <==> bucket_depth > 0 && bucket_depth < 33 && depth
            >= bucket_depth && depth - bucket_depth <= 31,
        depth >= bucket_depth ==> slots(depth as nat, bucket_depth as nat) * pow2(
            bucket_depth as nat,
        ) == pow2(depth as nat),
{
    if depth >= bucket_depth {
        vstd::arithmetic::power2::lemma_pow2_adds(
            (depth - bucket_depth) as nat,
            bucket_depth as nat,
        );
    }
}

/// The bucket of an address is its leading bits: where the bucket depth is whole
/// bytes, it is their number, and one bit more gives twice the bucket, or one more.
pub proof fn buckets_are_leading_bits(address: Seq<u8>, bucket_depth: nat)
    requires
        address.len() == 32,
        bucket_depth <= 32,
    ensures
        bucket_of(address, 8) == address[0],
        bucket_of(address, 16) == 256 * address[0] + address[1],
        bucket_of(address, 0) == 0,
        bucket_depth < 32 ==> bucket_of(address, bucket_depth) == bucket_of(
            address,
            bucket_depth + 1,
        ) / 2,
{
    vstd::arithmetic::power2::lemma2_to64();
    crate::bytes::four_bytes(address.take(4));
    let head = be_value(address.take(4));
    let four = address.take(4);
    assert(four[0] == address[0] && four[1] == address[1] && four[2] == address[2] && four[3]
        == address[3]);
    assert(pow2(24) == 0x100_0000 && pow2(16) == 0x1_0000);
    assert(head / 0x100_0000 == address[0]);
    assert(head / 0x1_0000 == 256 * address[0] + address[1]);
    assert(pow2(32) == 0x1_0000_0000);
    assert(head / 0x1_0000_0000 == 0);
    if bucket_depth < 32 {
        let half = pow2((31 - bucket_depth) as nat);
        vstd::arithmetic::power2::lemma_pow2_pos((31 - bucket_depth) as nat);
        vstd::arithmetic::power2::lemma_pow2_unfold((32 - bucket_depth) as nat);
        vstd::arithmetic::div_mod::lemma_div_denominator(head as int, half as int, 2);
        assert(half * 2 == pow2((32 - bucket_depth) as nat));
    }
}

/// A chunk is its data behind the data's length in eight bytes: the length's low
/// byte stands first, then the next, and six zeros follow them.
pub proof fn chunk_starts_with_its_length(data: Seq<u8>)
    requires
        data.len() <= 4096,
    ensures
        wire_of(data).len() == 8 + data.len(),
        wire_of(data).skip(8) == data,
        wire_of(data)[0] == data.len() % 256,
        wire_of(data)[1] == data.len() / 256,
        forall|i: int| 2 <= i < 8 ==> #[trigger] wire_of(data)[i] == 0,
{
    built_chunk_holds_its_data(data);
    let n = data.len();
    reveal_with_fuel(le_bytes, 9);
    assert(le_bytes(n, 8).len() == 8);
    assert(wire_of(data).take(8) =~= le_bytes(n, 8));
    assert forall|i: int| 0 <= i < 8 implies wire_of(data)[i] == le_bytes(n, 8)[i] by {}
    assert(n / 256 / 256 == 0);
}

/// The words for a full bucket name the bucket and its capacity; those of a failed
/// signature are the signer's own.
pub proof fn stamp_faults_say_why(bucket: u32, capacity: u32, text: String)
    ensures
        stamp_message(StampFault::BucketFull { bucket, capacity }) == "bucket full: bucket "@ + dec(
            bucket as nat,
        ) + " has reached capacity "@ + dec(capacity as nat),
        stamp_message(StampFault::Signer(text)) == text@,
{
}

/// The payload of a body is what follows its first eight bytes; a batch is found to be
/// fit for stamping by its depths.
pub proof fn bodies_and_batches_are_read(
    body: &[u8],
    payload: &[u8],
    depth: u8,
    bucket_depth: u8,
    fit: bool,
)
    requires
        call_ensures(payload_of, (body,), payload),
        call_ensures(is_stampable, (depth, bucket_depth), fit),
    ensures
        body@.len() < 8 ==> payload@ == body@,
        body@.len() >= 8 ==> payload@.len() == body@.len() - 8 && forall|i: int|
            0 <= i < payload@.len() ==> payload@[i] == body@[i + 8],
        fit <==> 1 <= bucket_depth <= 32 && bucket_depth <= depth <= bucket_depth + 31,
{
}

/// Stamping a chunk gives out one slot, the next of the chunk's bucket, and touches no
/// other bucket. A bucket is full once it has given out two to the power of the depth
/// less the bucket depth, and is then left alone.
pub proof fn stamping_takes_one_slot(
    s: &mut Stamper,
    address: &Bytes32,
    r: Result<Vec<u8>, StampFault>,
    other: int,
)
    requires
        old(s).wf(),
        can_stamp(stamp_geometry(*old(s)).0, stamp_geometry(*old(s)).1),
        call_ensures(Stamper::stamp, (s, address), r),
        0 <= other < stamp_counts(*old(s)).len(),
    ensures
        ({
            let (depth, bucket_depth) = stamp_geometry(*old(s));
            let before = stamp_counts(*old(s));
            let after = stamp_counts(*final(s));
            let bucket = bucket_of(address@, bucket_depth as nat) as int;
            let full = before[bucket] as nat == pow2((depth - bucket_depth) as nat);
            &&& after.len() == before.len()
            &&& other != bucket ==> after[other] == before[other]
            &&& full <==> (r matches Err(StampFault::BucketFull { .. }))
            &&& full ==> after[bucket] == before[bucket]
            &&& !full ==> after[bucket] == before[bucket] + 1
            &&& r matches Err(StampFault::BucketFull { bucket: b, capacity }) ==> b == bucket
                && capacity == before[bucket]
            &&& r matches Ok(stamp) ==> stamp@.len() == 113 && stamp@.take(32) == stamp_batch(
                *old(s),
            ) && be_value(stamp@.subrange(32, 36)) == bucket && be_value(stamp@.subrange(36, 40))
                == before[bucket] && message_signature(
                stamp_key(*old(s)),
                keccak(address@ + stamp_batch(*old(s)) + stamp@.subrange(32, 48)),
            ) == Ok::<Seq<u8>, Seq<char>>(stamp@.subrange(48, 113))
        }),
        stamp_batch(*final(s)) == stamp_batch(*old(s)),
        stamp_geometry(*final(s)) == stamp_geometry(*old(s)),
        stamp_key(*final(s)) == stamp_key(*old(s)),
{
    let (depth, bucket_depth) = stamp_geometry(*old(s));
    bucket_in_range(address@, bucket_depth as nat);
    lemma_slots_bound(depth, bucket_depth);
    let bucket = bucket_of(address@, bucket_depth as nat);
    let before = stamp_counts(*old(s));
    assert(before[bucket as int] <= slots(depth as nat, bucket_depth as nat));
    vstd::arithmetic::power2::lemma2_to64();
    if bucket_depth < 32 {
        vstd::arithmetic::power2::lemma_pow2_strictly_increases(bucket_depth as nat, 32);
    }
    crate::bytes::be_round_trip(bucket, 4);
    crate::bytes::be_round_trip(before[bucket as int] as nat, 4);
}

/// A prepared chunk holds its data behind its length, under the address of those bytes,
/// and a stamp on the first slot of that address's bucket. Data of more than 4096 bytes
/// is refused; any other fails only where the signature does.
pub proof fn prepared_chunk_is_complete(
    data: Vec<u8>,
    batch: &Bytes32,
    depth: u8,
    bucket_depth: u8,
    key: &SigningKey,
    r: Result<PreparedChunk, PrepareError>,
)
    requires
        call_ensures(prepare_content_chunk, (data, batch, depth, bucket_depth, key), r),
        can_stamp(depth, bucket_depth),
    ensures
        data@.len() > 4096 <==> r matches Err(PrepareError::Content(_)),
        r matches Ok(p) ==> {
            &&& p.body@.len() == 8 + data@.len()
            &&& p.body@.skip(8) == data@
            &&& p.body@[0] == data@.len() % 256
            &&& p.body@[1] == data@.len() / 256
            &&& p.address@ == bmt_address(p.body@)
            &&& p.stamp@.len() == 113
            &&& p.stamp@.take(32) == batch@
            &&& be_value(p.stamp@.subrange(32, 36)) == bucket_of(p.address@, bucket_depth as nat)
            &&& be_value(p.stamp@.subrange(36, 40)) == 0
            &&& message_signature(
                key@,
                keccak(p.address@ + batch@ + p.stamp@.subrange(32, 48)),
            ) == Ok::<Seq<u8>, Seq<char>>(p.stamp@.subrange(48, 113))
        },
{
    if let Ok(p) = r {
        chunk_starts_with_its_length(data@);
        bucket_in_range(p.address@, bucket_depth as nat);
        vstd::arithmetic::power2::lemma2_to64();
        if bucket_depth < 32 {
            vstd::arithmetic::power2::lemma_pow2_strictly_increases(bucket_depth as nat, 32);
        }
        crate::bytes::be_round_trip(bucket_of(p.address@, bucket_depth as nat), 4);
        crate::bytes::be_round_trip(0, 4);
    }
}

/// A built chunk is handed on with its stamp as they came; a stamp that failed is the
/// error.
pub proof fn stamped_chunk_is_handed_on(
    address: Bytes32,
    body: Vec<u8>,
    stamped: Result<Vec<u8>, StampFault>,
    r: Result<PreparedChunk, PrepareError>,
)
    requires
        call_ensures(prepared, (address, body, stamped), r),
    ensures
        r is Ok <==> stamped is Ok,
        r matches Ok(p) ==> p.address@ == address@ && p.body@ == body@ && (stamped matches Ok(s)
            && p.stamp@ == s@),
        r matches Err(e) ==> e matches PrepareError::Stamp(f) && stamped == Err::<
            Vec<u8>,
            StampFault,
        >(f),
{
}

/// A chunk that could not be prepared has words for the step that failed, and the words
/// behind it.
pub proof fn preparation_errors_are_shown(
    e: PrepareError,
    shown: &'static str,
    cause: String,
    f: StampFault,
    fault: String,
)
    requires
        call_ensures(PrepareError::message, (&e,), shown),
        call_ensures(PrepareError::cause, (&e,), cause),
        call_ensures(StampFault::message, (&f,), fault),
    ensures
        e is Content ==> shown@ == "failed to build content chunk"@,
        e is Stamp ==> shown@ == "failed to issue/sign postage stamp"@,
        e matches PrepareError::Content(text) ==> cause@ == text@,
        e matches PrepareError::Stamp(s) ==> cause@ == stamp_message(s),
        fault@ == stamp_message(f),
{
}

} // verus!
