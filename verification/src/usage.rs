//! Portable postage usage: a batch's counters, kept on Swarm in single-owner
//! chunks, so that stamping goes on from any device that has the owner's key.
//!
//! A snapshot has a root chunk and as many leaf chunks as the root says. It is
//! opened by fetching them, and flushed by publishing the next version above
//! the one that is published.

use vstd::arithmetic::power2::pow2;
use vstd::prelude::*;

use crate::bytes::{be_bytes, be_value, Bytes20, Bytes32};
use crate::chunkops::{
    bmt_address, bucket_of, content_fault, is_content, message_signature, names_slot, size_text,
    slot_at, slots, stamp_digest, wire_of,
};
use crate::discover::Usage;
use crate::hashing::keccak;
use crate::store::{ChunkKind, UploadRequest};
use crate::text::{dec, decimal, join2};
use crate::wallet::{account_of, SigningKey};

verus! {

/// `nectar_postage_usage::Snapshot`: a batch's counters, with what is needed to
/// publish them.
#[verifier::external_type_specification]
#[verifier::external_body]
pub struct ExSnapshot(nectar_postage_usage::Snapshot);

/// `nectar_postage_usage::PersistPlan`: the chunks of a version that is to be
/// published.
#[verifier::external_type_specification]
#[verifier::external_body]
pub struct ExPersistPlan(nectar_postage_usage::PersistPlan);

/// The counter of each bucket of a snapshot.
pub uninterp spec fn usage_counts(s: nectar_postage_usage::Snapshot) -> Seq<u32>;

/// The slots that a snapshot's own chunks take, in order, each within the
/// bucket of its chunk.
pub uninterp spec fn usage_slots(s: nectar_postage_usage::Snapshot) -> Seq<u32>;

/// The number of the snapshot's version: zero where none was published.
pub uninterp spec fn usage_sequence(s: nectar_postage_usage::Snapshot) -> u64;

/// The batch that a snapshot is of.
pub uninterp spec fn usage_batch(s: nectar_postage_usage::Snapshot) -> Seq<u8>;

/// The depth and the bucket depth of a snapshot's batch.
pub uninterp spec fn usage_geometry(s: nectar_postage_usage::Snapshot) -> (u8, u8);

/// Whether a snapshot's batch is mutable.
pub uninterp spec fn usage_mutable(s: nectar_postage_usage::Snapshot) -> bool;

/// When a snapshot was last sealed by this process.
pub uninterp spec fn usage_sealed(s: nectar_postage_usage::Snapshot) -> Option<u64>;

/// The chunks of a plan, in order: the id, the address, the bucket, the slot
/// and the payload of each.
pub uninterp spec fn plan_chunks(p: nectar_postage_usage::PersistPlan) -> Seq<
    (Seq<u8>, Seq<u8>, u32, u32, Seq<u8>),
>;

/// The batch that a plan is for.
pub uninterp spec fn plan_batch(p: nectar_postage_usage::PersistPlan) -> Seq<u8>;

/// What stops the next version of a snapshot from being planned, if anything:
/// there is no number left for it, or no slot for one of its chunks.
pub uninterp spec fn plan_fault(s: nectar_postage_usage::Snapshot, owner: Seq<u8>) -> Option<
    Seq<char>,
>;

/// What is wrong with a root's payload, if anything.
pub uninterp spec fn root_fault(root: Seq<u8>) -> Option<Seq<char>>;

/// The counters that a root's and its leaves' payloads hold, or what is wrong
/// with them.
pub uninterp spec fn assembled(root: Seq<u8>, leaves: Seq<Seq<u8>>) -> Result<Seq<u32>, Seq<char>>;

/// The number of the version that a root's payload is of.
pub open spec fn root_sequence(root: Seq<u8>) -> nat {
    be_value(root.subrange(40, 48))
}

/// The number of leaves that a root's payload names.
pub open spec fn root_leaves(root: Seq<u8>) -> nat {
    be_value(root.subrange(62, 64))
}

/// The slots that a root's payload names for the snapshot's own chunks.
pub open spec fn root_slots(root: Seq<u8>) -> Seq<u32> {
    let start = 66 + 8 * be_value(root.subrange(64, 66));
    Seq::new(
        be_value(root.subrange(60, 62)),
        |i: int| be_value(root.subrange(start + 4 * i, start + 4 * i + 4)) as u32,
    )
}

/// The id of the chunk `index` of a batch's snapshot.
pub open spec fn usage_id(batch: Seq<u8>, index: nat) -> Seq<u8> {
    keccak(vstd::utf8::encode_utf8("swarm-batch-usage"@) + batch + be_bytes(index, 2))
}

/// The address of the chunk `index` of a batch's snapshot.
pub open spec fn usage_address(batch: Seq<u8>, owner: Seq<u8>, index: nat) -> Seq<u8> {
    keccak(usage_id(batch, index) + owner)
}

/// `nectar_postage_usage::usage_chunk_address`.
///
/// Trusted: the address is the hash of the chunk's id and the owner, and the id
/// the hash of a domain, the batch and the index.
#[verifier::external_body]
fn chunk_address(batch: &Bytes32, owner: &Bytes20, index: u16) -> (a: Bytes32)
    ensures
        a@ == usage_address(batch@, owner@, index as nat),
{
    let batch = alloy_primitives::B256::from(batch.bytes);
    let owner = alloy_primitives::Address::from(owner.bytes);
    let address = nectar_postage_usage::usage_chunk_address(&batch, &owner, index);
    Bytes32 { bytes: address.into() }
}

/// Whether bytes are the wire form of a single-owner chunk: an id, a signature
/// whose last byte is one of the known parities, and a content chunk.
pub open spec fn is_single_owner(wire: Seq<u8>) -> bool {
    &&& wire.len() >= 97
    &&& known_parity(wire[96])
    &&& is_content(wire.skip(97))
}

/// The values that the last byte of a signature can have.
pub open spec fn known_parity(v: u8) -> bool {
    v <= 1 || v == 27 || v == 28 || v >= 35
}

/// What is wrong with bytes that are no single-owner chunk.
pub open spec fn single_owner_fault(wire: Seq<u8>) -> Seq<char> {
    if wire.len() < 97 {
        size_text("insufficient data for single-owner chunk"@, 97, wire.len())
    } else if !known_parity(wire[96]) {
        "Signature error: invalid parity: "@ + dec(wire[96] as nat)
    } else {
        content_fault(wire.skip(97))
    }
}

/// `nectar_primitives::SingleOwnerChunk::try_from` on a wire form, and the
/// chunk's `data`.
///
/// Trusted: the form is accepted if and only if it is that of a single-owner
/// chunk, whose data follows the id, the signature and the span. The signature
/// is not checked against an owner.
#[verifier::external_body]
fn single_owner_data(wire: &[u8]) -> (r: Result<Vec<u8>, String>)
    ensures
        match r {
            Ok(data) => is_single_owner(wire@) && data@ == wire@.skip(105),
            Err(text) => !is_single_owner(wire@) && text@ == single_owner_fault(wire@),
        },
{
    let parsed = nectar_primitives::SingleOwnerChunk::<4096>::try_from(wire);
    let chunk = parsed.map_err(|e| e.to_string())?;
    Ok(nectar_primitives::Chunk::data(&chunk).to_vec())
}

/// `nectar_postage_usage::RootInfo::parse`, and the root's `sequence` and
/// `leaf_count`.
///
/// Trusted: whether the payload is accepted, and the words where it is not, are
/// a function of it alone. An accepted payload has its sequence at byte 40 and
/// the number of its leaves at byte 62, the most significant byte first. Which
/// payloads are accepted is left unsaid.
#[verifier::external_body]
fn parse_root(root: &[u8]) -> (r: Result<(u64, u16), String>)
    ensures
        match r {
            Ok((sequence, leaves)) => root_fault(root@) is None && root@.len() >= 66 && sequence
                == root_sequence(root@) && leaves == root_leaves(root@),
            Err(text) => root_fault(root@) == Some(text@),
        },
{
    let info = nectar_postage_usage::RootInfo::parse(root).map_err(|e| e.to_string())?;
    Ok((info.sequence(), info.leaf_count()))
}

/// The views of a list of payloads.
pub open spec fn payloads(v: Seq<Vec<u8>>) -> Seq<Seq<u8>> {
    v.map_values(|p: Vec<u8>| p@)
}

/// `nectar_postage_usage::RootInfo::assemble` on a parsed root and its leaves.
///
/// Trusted: the counters, or the words where root and leaves do not go
/// together, are a function of the payloads alone. The snapshot has the root's
/// sequence, batch (at byte 4), depths (at bytes 36 and 37), mutability (the low
/// bit of byte 38) and slots (as many as byte 60 says, behind eight bytes for
/// each exception that byte 64 counts), and was not sealed. What the counters
/// are is left unsaid.
#[verifier::external_body]
fn assemble(root: &[u8], leaves: &Vec<Vec<u8>>) -> (r: Result<
    nectar_postage_usage::Snapshot,
    String,
>)
    ensures
        match r {
            Ok(s) => {
                &&& root_fault(root@) is None
                &&& root@.len() >= 66
                &&& assembled(root@, payloads(leaves@)) == Ok::<Seq<u32>, Seq<char>>(
                    usage_counts(s),
                )
                &&& usage_slots(s) == root_slots(root@)
                &&& usage_sequence(s) == root_sequence(root@)
                &&& usage_batch(s) == root@.subrange(4, 36)
                &&& usage_geometry(s) == (root@[36], root@[37])
                &&& usage_mutable(s) == (root@[38] % 2 == 1)
                &&& usage_sealed(s) is None
            },
            Err(text) => root_fault(root@) == Some(text@) || (root_fault(root@) is None
                && assembled(root@, payloads(leaves@)) == Err::<Seq<u32>, Seq<char>>(text@)),
        },
{
    let info = nectar_postage_usage::RootInfo::parse(root).map_err(|e| e.to_string())?;
    info.assemble(leaves).map_err(|e| e.to_string())
}

/// Whether a snapshot can be made for a batch of these depths.
pub open spec fn is_supported(depth: u8, bucket_depth: u8) -> bool {
    bucket_depth <= 16 && bucket_depth <= depth <= bucket_depth + 31
}

/// A batch whose usage is kept.
#[derive(Clone, Copy, Debug, PartialEq, Eq)]
pub struct UsageBatch {
    pub id: Bytes32,
    pub owner: Bytes20,
    pub depth: u8,
    pub bucket_depth: u8,
    pub immutable: bool,
}

/// The words for depths that are not supported.
pub open spec fn geometry_fault(depth: u8, bucket_depth: u8) -> Seq<char> {
    "unsupported batch geometry: depth "@ + dec(depth as nat) + ", bucket depth "@ + dec(
        bucket_depth as nat,
    )
}

/// `nectar_postage_usage::Snapshot::from_batch` on a `nectar_postage::Batch`.
///
/// Trusted: depths that the format supports give a snapshot with all counters
/// at zero and no slots, that was never published; others are refused.
#[verifier::external_body]
fn fresh_snapshot(batch: &UsageBatch) -> (r: Result<nectar_postage_usage::Snapshot, String>)
    ensures
        match r {
            Ok(s) => {
                &&& is_supported(batch.depth, batch.bucket_depth)
                &&& usage_counts(s) == Seq::new(pow2(batch.bucket_depth as nat), |i: int| 0u32)
                &&& usage_slots(s) == Seq::<u32>::empty()
                &&& usage_sequence(s) == 0
                &&& usage_batch(s) == batch.id@
                &&& usage_geometry(s) == (batch.depth, batch.bucket_depth)
                &&& usage_mutable(s) == !batch.immutable
                &&& usage_sealed(s) is None
            },
            Err(text) => !is_supported(batch.depth, batch.bucket_depth) && text@ == geometry_fault(
                batch.depth,
                batch.bucket_depth,
            ),
        },
{
    let id = alloy_primitives::B256::from(batch.id.bytes);
    let owner = alloy_primitives::Address::from(batch.owner.bytes);
    let b = nectar_postage::Batch::new(id, 0, 0, owner, batch.depth, batch.bucket_depth, batch.immutable);
    nectar_postage_usage::Snapshot::from_batch(&b).map_err(|e| e.to_string())
}

/// `nectar_postage_usage::Snapshot::table` and the table's `batch_id`.
#[verifier::external_body]
fn snapshot_batch(s: &nectar_postage_usage::Snapshot) -> (id: Bytes32)
    ensures
        id@ == usage_batch(*s),
{
    Bytes32 { bytes: s.table().batch_id().0 }
}

/// `nectar_postage_usage::Snapshot::table` and the table's `bucket_depth`.
#[verifier::external_body]
fn snapshot_bucket_depth(s: &nectar_postage_usage::Snapshot) -> (d: u8)
    ensures
        d == usage_geometry(*s).1,
{
    s.table().bucket_depth()
}

/// `nectar_postage_usage::Snapshot::sequence`.
#[verifier::external_body]
fn snapshot_sequence(s: &nectar_postage_usage::Snapshot) -> (n: u64)
    ensures
        n == usage_sequence(*s),
{
    s.sequence()
}

/// `nectar_postage_usage::Snapshot::last_seal_timestamp`.
#[verifier::external_body]
fn last_sealed(s: &nectar_postage_usage::Snapshot) -> (t: Option<u64>)
    ensures
        t == usage_sealed(*s),
{
    s.last_seal_timestamp()
}

/// `peak` is the greatest of the counters, or zero where there is none.
pub open spec fn is_peak(counts: Seq<u32>, peak: u32) -> bool {
    &&& forall|i: int| 0 <= i < counts.len() ==> #[trigger] counts[i] <= peak
    &&& counts.len() == 0 ==> peak == 0
    &&& counts.len() > 0 ==> counts.contains(peak)
}

/// `nectar_postage_usage::Snapshot::table` and the table's `max_count`.
#[verifier::external_body]
fn snapshot_peak(s: &nectar_postage_usage::Snapshot) -> (peak: u32)
    ensures
        is_peak(usage_counts(*s), peak),
{
    s.table().max_count()
}

/// Why no version was planned.
#[derive(Clone, Debug)]
pub enum PlanFault {
    /// The version would not be above the published one.
    Stale { next: u64, floor: u64 },
    /// Anything else, in words.
    Other(String),
}

/// Whether a plan's chunks are those of a batch's snapshot: chunk `i` is at the
/// address of index `i`, and stamped with its slot of that address's bucket.
pub open spec fn plan_fits(
    chunks: Seq<(Seq<u8>, Seq<u8>, u32, u32, Seq<u8>)>,
    batch: Seq<u8>,
    owner: Seq<u8>,
    bucket_depth: nat,
    taken: Seq<u32>,
) -> bool {
    &&& 1 <= chunks.len() <= 0x1_0000
    &&& chunks.len() <= taken.len()
    &&& forall|i: int|
        0 <= i < chunks.len() ==> {
            let (id, address, bucket, slot, payload) = #[trigger] chunks[i];
            &&& id == usage_id(batch, i as nat)
            &&& address == usage_address(batch, owner, i as nat)
            &&& bucket == bucket_of(address, bucket_depth)
            &&& slot == taken[i]
            &&& payload.len() <= 4096
        }
}

/// The buckets of the first `n` chunks of a batch's snapshot.
pub open spec fn own_buckets(batch: Seq<u8>, owner: Seq<u8>, bucket_depth: nat, n: nat) -> Seq<
    int,
> {
    Seq::new(n, |i: int| bucket_of(usage_address(batch, owner, i as nat), bucket_depth) as int)
}

/// The counters once the chunks from `from` to `to` have taken their slots: each
/// leaves its bucket's counter just past its slot.
pub open spec fn counts_past(
    counts: Seq<u32>,
    buckets: Seq<int>,
    taken: Seq<u32>,
    from: int,
    to: int,
) -> Seq<u32>
    decreases to - from,
{
    if to <= from {
        counts
    } else {
        counts_past(counts, buckets, taken, from, to - 1).update(
            buckets[to - 1],
            (taken[to - 1] + 1) as u32,
        )
    }
}

/// Whether a chunk before `i` holds the slot in the bucket of chunk `i`.
pub open spec fn is_held(buckets: Seq<int>, taken: Seq<u32>, i: int, slot: nat) -> bool {
    exists|j: int| 0 <= j < i && buckets[j] == buckets[i] && #[trigger] taken[j] == slot
}

/// The slot `d` steps on from a counter, round its bucket. A counter that has
/// come to the end stands for the first slot.
pub open spec fn ring_slot(used: u32, d: nat, capacity: nat) -> nat {
    if used < capacity {
        (used + d) as nat % capacity
    } else {
        d % capacity
    }
}

/// Whether chunk `i` takes the next slot of its bucket, whose counter stands at
/// `used`: on an immutable batch the first that was never given out; on a mutable
/// one the first from the counter on, round the bucket, that no other chunk of
/// the snapshot holds.
pub open spec fn takes_next_slot(
    used: u32,
    capacity: nat,
    mutable: bool,
    buckets: Seq<int>,
    taken: Seq<u32>,
    i: int,
) -> bool {
    if mutable {
        &&& !is_held(buckets, taken, i, taken[i] as nat)
        &&& exists|d: nat|
            d < capacity && taken[i] == #[trigger] ring_slot(used, d, capacity) && forall|
                e: nat,
            |
                e < d ==> is_held(buckets, taken, i, #[trigger] ring_slot(used, e, capacity))
    } else {
        taken[i] == used
    }
}

/// What planning a version does to a snapshot's slots and counters: the chunks
/// that have slots keep them, each further chunk takes the next slot of its
/// bucket, and no other counter moves.
pub open spec fn allots(
    before: nectar_postage_usage::Snapshot,
    after: nectar_postage_usage::Snapshot,
    owner: Seq<u8>,
) -> bool {
    let (depth, bucket_depth) = usage_geometry(before);
    let counts = usage_counts(before);
    let taken = usage_slots(after);
    let held = usage_slots(before).len() as int;
    let buckets = own_buckets(usage_batch(before), owner, bucket_depth as nat, taken.len());
    let capacity = slots(depth as nat, bucket_depth as nat);
    &&& held <= taken.len() <= 0x1_0000
    &&& taken.take(held) == usage_slots(before)
    &&& usage_counts(after) == counts_past(counts, buckets, taken, held, taken.len() as int)
    &&& forall|i: int|
        #![trigger taken[i]]
        held <= i < taken.len() ==> {
            &&& buckets[i] < counts.len()
            &&& taken[i] < capacity
            &&& taken[i] < u32::MAX
            &&& takes_next_slot(
                counts_past(counts, buckets, taken, held, i)[buckets[i]],
                capacity,
                usage_mutable(before),
                buckets,
                taken,
                i,
            )
        }
}

/// What every flush keeps of the counters: there are as many, only those in
/// buckets of the snapshot's own chunks move, and on an immutable batch none goes
/// down.
pub open spec fn keeps_counters(
    before: nectar_postage_usage::Snapshot,
    after: nectar_postage_usage::Snapshot,
    owner: Seq<u8>,
) -> bool {
    &&& usage_counts(after).len() == usage_counts(before).len()
    &&& forall|b: int|
        0 <= b < usage_counts(before).len() && #[trigger] usage_counts(after)[b] != usage_counts(
            before,
        )[b] ==> exists|i: nat|
            i < 0x1_0000 && b == bucket_of(
                #[trigger] usage_address(usage_batch(before), owner, i),
                usage_geometry(before).1 as nat,
            )
    &&& !usage_mutable(before) ==> forall|b: int|
        0 <= b < usage_counts(before).len() ==> usage_counts(before)[b] <= #[trigger] usage_counts(
            after,
        )[b]
}

/// Whether the chunks from `from` to `to` have buckets, and slots that can be
/// counted.
spec fn slots_fit(counts: Seq<u32>, buckets: Seq<int>, taken: Seq<u32>, from: int, to: int) -> bool {
    &&& 0 <= from <= to <= taken.len()
    &&& forall|i: int|
        #![trigger buckets[i]]
        #![trigger taken[i]]
        from <= i < to ==> 0 <= buckets[i] < counts.len() && taken[i] < u32::MAX
}

/// A counter that moves is one of the buckets of the chunks that take slots.
proof fn lemma_counter_moves(
    counts: Seq<u32>,
    buckets: Seq<int>,
    taken: Seq<u32>,
    from: int,
    to: int,
    b: int,
)
    requires
        slots_fit(counts, buckets, taken, from, to),
        0 <= b < counts.len(),
    ensures
        counts_past(counts, buckets, taken, from, to).len() == counts.len(),
        counts_past(counts, buckets, taken, from, to)[b] != counts[b] ==> exists|i: int|
            from <= i < to && b == #[trigger] buckets[i],
    decreases to - from,
{
    if from < to {
        lemma_counter_moves(counts, buckets, taken, from, to - 1, b);
        let at = buckets[to - 1];
        if b == at {
            assert(from <= to - 1 < to && b == buckets[to - 1]);
        }
    }
}

/// Where each chunk takes the slot that its bucket's counter stands at, no
/// counter goes down, and every slot that is taken is counted.
proof fn lemma_counter_grows(
    counts: Seq<u32>,
    buckets: Seq<int>,
    taken: Seq<u32>,
    from: int,
    mid: int,
    to: int,
    b: int,
)
    requires
        slots_fit(counts, buckets, taken, from, to),
        from <= mid <= to,
        0 <= b < counts.len(),
        forall|i: int|
            #![trigger taken[i]]
            from <= i < to ==> taken[i] == counts_past(counts, buckets, taken, from, i)[buckets[i]],
    ensures
        counts_past(counts, buckets, taken, from, to).len() == counts.len(),
        counts_past(counts, buckets, taken, from, mid)[b] <= counts_past(
            counts,
            buckets,
            taken,
            from,
            to,
        )[b],
    decreases to - from,
{
    if from < to {
        let n = if mid < to {
            mid
        } else {
            to - 1
        };
        lemma_counter_grows(counts, buckets, taken, from, n, to - 1, b);
        let last = taken[to - 1];
        assert(last == counts_past(counts, buckets, taken, from, to - 1)[buckets[to - 1]]);
    }
}

/// Planning keeps the counters: only those in buckets of the snapshot's own
/// chunks move, and on an immutable batch none goes down. There every slot that
/// is taken was not given out before, and is counted afterwards.
pub proof fn planning_keeps_the_counters(
    before: nectar_postage_usage::Snapshot,
    after: nectar_postage_usage::Snapshot,
    owner: Seq<u8>,
)
    requires
        allots(before, after, owner),
    ensures
        keeps_counters(before, after, owner),
        usage_slots(after).len() == usage_slots(before).len() ==> usage_counts(after)
            == usage_counts(before),
        !usage_mutable(before) ==> forall|i: int|
            #![trigger usage_slots(after)[i]]
            usage_slots(before).len() <= i < usage_slots(after).len() ==> {
                let b = bucket_of(
                    usage_address(usage_batch(before), owner, i as nat),
                    usage_geometry(before).1 as nat,
                ) as int;
                usage_counts(before)[b] <= usage_slots(after)[i] < usage_counts(after)[b]
            },
{
    let counts = usage_counts(before);
    let taken = usage_slots(after);
    let held = usage_slots(before).len() as int;
    let n = taken.len() as int;
    let buckets = own_buckets(
        usage_batch(before),
        owner,
        usage_geometry(before).1 as nat,
        taken.len(),
    );
    assert forall|i: int|
        #![trigger buckets[i]]
        #![trigger taken[i]]
        held <= i < n implies 0 <= buckets[i] < counts.len() && taken[i] < u32::MAX by {
        assert(taken[i] < u32::MAX);
    }
    if counts.len() > 0 {
        lemma_counter_moves(counts, buckets, taken, held, n, 0);
    } else if held < n {
        assert(taken[held] < u32::MAX);
    }
    assert forall|b: int| 0 <= b < counts.len() && #[trigger] usage_counts(after)[b]
        != counts[b] implies exists|i: nat|
        i < 0x1_0000 && b == bucket_of(
            #[trigger] usage_address(usage_batch(before), owner, i),
            usage_geometry(before).1 as nat,
        ) by {
        lemma_counter_moves(counts, buckets, taken, held, n, b);
        let i = choose|i: int| held <= i < n && b == #[trigger] buckets[i];
        assert(b == bucket_of(
            usage_address(usage_batch(before), owner, i as nat),
            usage_geometry(before).1 as nat,
        ));
    }
    if !usage_mutable(before) {
        assert forall|b: int| 0 <= b < counts.len() implies counts[b] <= #[trigger] usage_counts(
            after,
        )[b] by {
            lemma_counter_grows(counts, buckets, taken, held, held, n, b);
        }
        assert forall|i: int|
            #![trigger taken[i]]
            held <= i < n implies counts[buckets[i]] <= taken[i] < usage_counts(
            after,
        )[buckets[i]] by {
            let b = buckets[i];
            lemma_counter_grows(counts, buckets, taken, held, held, i, b);
            lemma_counter_grows(counts, buckets, taken, held, i + 1, n, b);
            assert(counts_past(counts, buckets, taken, held, i + 1)[b] == taken[i] + 1);
        }
    }
}

/// The snapshot's own chunks keep apart: a chunk that takes a slot takes none that
/// another has taken with it in the same bucket, and, on a mutable batch, none
/// that one before it holds.
pub proof fn own_chunks_keep_apart(
    before: nectar_postage_usage::Snapshot,
    after: nectar_postage_usage::Snapshot,
    owner: Seq<u8>,
    j: int,
    i: int,
)
    requires
        allots(before, after, owner),
        0 <= j < i < usage_slots(after).len(),
        usage_slots(before).len() <= i,
        usage_mutable(before) || usage_slots(before).len() <= j,
        bucket_of(
            usage_address(usage_batch(before), owner, j as nat),
            usage_geometry(before).1 as nat,
        ) == bucket_of(
            usage_address(usage_batch(before), owner, i as nat),
            usage_geometry(before).1 as nat,
        ),
    ensures
        usage_slots(after)[j] != usage_slots(after)[i],
{
    let counts = usage_counts(before);
    let taken = usage_slots(after);
    let held = usage_slots(before).len() as int;
    let buckets = own_buckets(
        usage_batch(before),
        owner,
        usage_geometry(before).1 as nat,
        taken.len(),
    );
    assert(buckets[j] == buckets[i]);
    assert(taken[i] < u32::MAX);
    if usage_mutable(before) {
        assert(is_held(buckets, taken, i, taken[j] as nat));
    } else {
        assert forall|k: int|
            #![trigger buckets[k]]
            #![trigger taken[k]]
            held <= k < i implies 0 <= buckets[k] < counts.len() && taken[k] < u32::MAX by {
            assert(taken[k] < u32::MAX);
        }
        lemma_counter_grows(counts, buckets, taken, held, held, j, buckets[i]);
        lemma_counter_grows(counts, buckets, taken, held, j + 1, i, buckets[i]);
        assert(counts_past(counts, buckets, taken, held, j + 1)[buckets[j]] == taken[j] + 1);
    }
}

/// The payload of a plan's root.
pub open spec fn root_payload(chunks: Seq<(Seq<u8>, Seq<u8>, u32, u32, Seq<u8>)>) -> Seq<u8> {
    chunks[0].4
}

/// The payloads of a plan's leaves.
pub open spec fn leaf_payloads(chunks: Seq<(Seq<u8>, Seq<u8>, u32, u32, Seq<u8>)>) -> Seq<Seq<u8>> {
    Seq::new((chunks.len() - 1) as nat, |i: int| chunks[i + 1].4)
}

/// Whether a plan's root and leaves, read back, are the version, the batch, the
/// slots and the counters of a snapshot.
pub open spec fn reads_back(
    chunks: Seq<(Seq<u8>, Seq<u8>, u32, u32, Seq<u8>)>,
    s: nectar_postage_usage::Snapshot,
) -> bool {
    &&& root_payload(chunks).len() >= 66
    &&& root_fault(root_payload(chunks)) is None
    &&& root_sequence(root_payload(chunks)) == usage_sequence(s)
    &&& root_leaves(root_payload(chunks)) == chunks.len() - 1
    &&& root_slots(root_payload(chunks)) == usage_slots(s)
    &&& root_payload(chunks).subrange(4, 36) == usage_batch(s)
    &&& usage_geometry(s) == (root_payload(chunks)[36], root_payload(chunks)[37])
    &&& usage_mutable(s) == (root_payload(chunks)[38] % 2 == 1)
    &&& assembled(root_payload(chunks), leaf_payloads(chunks)) == Ok::<Seq<u32>, Seq<char>>(
        usage_counts(s),
    )
}

/// What a snapshot keeps where its next version was not planned: all but its
/// number, which may have gone up by one.
pub open spec fn keeps_all_but_number(
    before: nectar_postage_usage::Snapshot,
    after: nectar_postage_usage::Snapshot,
) -> bool {
    &&& usage_counts(after) == usage_counts(before)
    &&& usage_slots(after) == usage_slots(before)
    &&& usage_batch(after) == usage_batch(before)
    &&& usage_geometry(after) == usage_geometry(before)
    &&& usage_mutable(after) == usage_mutable(before)
    &&& usage_sealed(after) == usage_sealed(before)
    &&& usage_sequence(after) == usage_sequence(before) || usage_sequence(after)
        == usage_sequence(before) + 1
}

/// `nectar_postage_usage::Snapshot::revalidate` and `Validated::plan_persist`.
///
/// Trusted: the next version must be above the published one, and is refused as
/// stale where it is not; nothing changes then. What else stops it, in words, is
/// a function of the snapshot and the owner alone; all but the snapshot's number
/// is kept then, and the number may have gone up by one, as it has where the
/// counters cannot be encoded. A plan has the next sequence, which the snapshot
/// takes on, and its chunks are those of the batch; its root and leaves, read
/// back, are that version of that batch with the snapshot's slots and counters.
/// Chunks that have slots keep them; each further chunk takes the next slot of
/// its bucket, and only the counters of such buckets move. How many further
/// chunks there are, and what the words are, is left unsaid.
#[verifier::external_body]
fn plan_next(s: &mut nectar_postage_usage::Snapshot, floor: u64, owner: &Bytes20) -> (r: Result<
    nectar_postage_usage::PersistPlan,
    PlanFault,
>)
    requires
        usage_geometry(*old(s)).1 >= 1,
    ensures
        usage_batch(*final(s)) == usage_batch(*old(s)),
        usage_geometry(*final(s)) == usage_geometry(*old(s)),
        usage_mutable(*final(s)) == usage_mutable(*old(s)),
        usage_sealed(*final(s)) == usage_sealed(*old(s)),
        match r {
            Ok(plan) => {
                &&& plan_fault(*old(s), owner@) is None
                &&& usage_sequence(*old(s)) + 1 > floor
                &&& usage_sequence(*final(s)) == usage_sequence(*old(s)) + 1
                &&& plan_batch(plan) == usage_batch(*old(s))
                &&& plan_fits(
                    plan_chunks(plan),
                    usage_batch(*old(s)),
                    owner@,
                    usage_geometry(*old(s)).1 as nat,
                    usage_slots(*final(s)),
                )
                &&& reads_back(plan_chunks(plan), *final(s))
                &&& allots(*old(s), *final(s), owner@)
            },
            Err(PlanFault::Stale { next, floor: f }) => *final(s) == *old(s) && next
                == usage_sequence(*old(s)) + 1 && f == floor && next <= floor,
            Err(PlanFault::Other(text)) => plan_fault(*old(s), owner@) == Some(text@)
                && keeps_all_but_number(*old(s), *final(s)) && (usage_sequence(*old(s))
                == u64::MAX || usage_sequence(*old(s)) + 1 > floor),
        },
{
    let owner = alloy_primitives::Address::from(owner.bytes);
    let floor = nectar_postage_usage::PublishedSequence::new(floor);
    let planned = s.revalidate(floor).and_then(|mut admitted| admitted.plan_persist(&owner));
    planned.map_err(
        |e| match e {
            nectar_postage_usage::UsageError::StaleSequence { next, floor } => {
                PlanFault::Stale { next, floor }
            },
            e => PlanFault::Other(e.to_string()),
        },
    )
}

/// Why a plan was not sealed.
#[derive(Clone, Debug)]
pub enum SealFault {
    /// The time is not after the last seal.
    NotLater { timestamp: u64, previous: u64 },
    /// The key is not the owner's.
    NotTheOwner,
    /// Anything else, in words.
    Other(String),
}

/// A chunk of a snapshot, ready to be uploaded.
pub struct SealedChunk {
    pub address: Bytes32,
    pub wire: Vec<u8>,
    pub stamp: Vec<u8>,
}

/// What the owner of a single-owner chunk signs: the hash of its id and of the
/// address that its body would have as a content chunk.
pub open spec fn owner_digest(id: Seq<u8>, payload: Seq<u8>) -> Seq<u8> {
    keccak(id + bmt_address(wire_of(payload)))
}

/// Whether `sealed` is a planned chunk, signed: its wire form is its id, the
/// key's signature on its id and body, its span and its payload, and its stamp
/// names its slot and the time and is signed by the key.
pub open spec fn seals(
    sealed: SealedChunk,
    planned: (Seq<u8>, Seq<u8>, u32, u32, Seq<u8>),
    batch: Seq<u8>,
    timestamp: u64,
    key: Seq<u8>,
) -> bool {
    let (id, address, bucket, slot, payload) = planned;
    &&& payload.len() <= 4096
    &&& sealed.address@ == address
    &&& address == keccak(id + account_of(key))
    &&& sealed.wire@.len() == 105 + payload.len()
    &&& sealed.wire@.take(32) == id
    &&& message_signature(key, owner_digest(id, payload)) == Ok::<Seq<u8>, Seq<char>>(
        sealed.wire@.subrange(32, 97),
    )
    &&& known_parity(sealed.wire@[96])
    &&& sealed.wire@.skip(97) == wire_of(payload)
    &&& names_slot(sealed.stamp@, batch, bucket as nat, slot as nat)
    &&& sealed.stamp@.subrange(40, 48) == be_bytes(timestamp as nat, 8)
    &&& message_signature(
        key,
        stamp_digest(address, batch, slot_at(bucket as nat, slot as nat, timestamp)),
    ) == Ok::<Seq<u8>, Seq<char>>(sealed.stamp@.subrange(48, 113))
}

/// Whether a planned chunk can be sealed: its payload fits, its address is that
/// of the key's account, and both its signatures can be made.
pub open spec fn can_seal(
    planned: (Seq<u8>, Seq<u8>, u32, u32, Seq<u8>),
    batch: Seq<u8>,
    timestamp: u64,
    key: Seq<u8>,
) -> bool {
    let (id, address, bucket, slot, payload) = planned;
    &&& payload.len() <= 4096
    &&& message_signature(key, owner_digest(id, payload)) is Ok
    &&& address == keccak(id + account_of(key))
    &&& message_signature(
        key,
        stamp_digest(address, batch, slot_at(bucket as nat, slot as nat, timestamp)),
    ) is Ok
}

/// Why a planned chunk cannot be sealed.
pub open spec fn chunk_refused(
    planned: (Seq<u8>, Seq<u8>, u32, u32, Seq<u8>),
    batch: Seq<u8>,
    timestamp: u64,
    key: Seq<u8>,
    fault: SealFault,
) -> bool {
    let (id, address, bucket, slot, payload) = planned;
    let words = if payload.len() > 4096 {
        Some(size_text("data exceeds maximum chunk size"@, 4096, payload.len()))
    } else {
        match message_signature(key, owner_digest(id, payload)) {
            Err(t) => Some("Signer error: "@ + t),
            Ok(_) => if address != keccak(id + account_of(key)) {
                None
            } else {
                match message_signature(
                    key,
                    stamp_digest(address, batch, slot_at(bucket as nat, slot as nat, timestamp)),
                ) {
                    Err(t) => Some(t),
                    Ok(_) => None,
                }
            },
        }
    };
    &&& !can_seal(planned, batch, timestamp, key)
    &&& match fault {
        SealFault::NotLater { .. } => false,
        SealFault::NotTheOwner => words is None,
        SealFault::Other(text) => words == Some(text@),
    }
}

/// Why a plan that came in time was not sealed: the first of its chunks that
/// cannot be sealed says so.
pub open spec fn seal_refused(
    plan: nectar_postage_usage::PersistPlan,
    timestamp: u64,
    key: Seq<u8>,
    fault: SealFault,
) -> bool {
    exists|i: int|
        0 <= i < plan_chunks(plan).len() && chunk_refused(
            #[trigger] plan_chunks(plan)[i],
            plan_batch(plan),
            timestamp,
            key,
            fault,
        ) && forall|j: int|
            0 <= j < i ==> can_seal(
                #[trigger] plan_chunks(plan)[j],
                plan_batch(plan),
                timestamp,
                key,
            )
}

/// `nectar_postage_usage::seal_plan`, and the bytes of each chunk and stamp.
///
/// Trusted: a time that is not after the last seal is refused; nothing changes
/// then. Otherwise every chunk of the plan is signed and stamped, in order, and
/// the snapshot remembers the time, unless a chunk is too long, its address is
/// not that of the key's account, or one of its signatures fails, which is a
/// function of the key and what is signed alone. What a signature is, and the
/// signer's words where it fails, are left unsaid.
#[verifier::external_body]
fn seal(
    s: &mut nectar_postage_usage::Snapshot,
    plan: &nectar_postage_usage::PersistPlan,
    timestamp: u64,
    key: &SigningKey,
) -> (r: Result<Vec<SealedChunk>, SealFault>)
    requires
        key.wf(),
    ensures
        usage_counts(*final(s)) == usage_counts(*old(s)),
        usage_slots(*final(s)) == usage_slots(*old(s)),
        usage_sequence(*final(s)) == usage_sequence(*old(s)),
        usage_batch(*final(s)) == usage_batch(*old(s)),
        usage_geometry(*final(s)) == usage_geometry(*old(s)),
        usage_mutable(*final(s)) == usage_mutable(*old(s)),
        match r {
            Ok(v) => {
                &&& usage_sealed(*old(s)) matches Some(previous) ==> timestamp > previous
                &&& usage_sealed(*final(s)) == Some(timestamp)
                &&& v@.len() == plan_chunks(*plan).len()
                &&& forall|i: int|
                    0 <= i < v@.len() ==> seals(
                        #[trigger] v@[i],
                        plan_chunks(*plan)[i],
                        plan_batch(*plan),
                        timestamp,
                        key@,
                    )
            },
            Err(e) => usage_sealed(*final(s)) == usage_sealed(*old(s)) && match e {
                SealFault::NotLater { timestamp: t, previous } => t == timestamp && usage_sealed(
                    *old(s),
                ) == Some(previous) && timestamp <= previous,
                fault => (usage_sealed(*old(s)) matches Some(previous) ==> timestamp > previous)
                    && seal_refused(*plan, timestamp, key@, fault),
            },
        },
{
    let secret = alloy_primitives::B256::from(key.secret.bytes);
    let signer = alloy_signer_local::PrivateKeySigner::from_bytes(&secret).expect("a valid key");
    let sealed = nectar_postage_usage::seal_plan(s, plan, timestamp, &signer);
    sealed.map(|v| v.iter().map(|c| SealedChunk {
        address: Bytes32 { bytes: (*nectar_primitives::Chunk::address(&c.chunk)).into() },
        wire: nectar_primitives::bytes::Bytes::from(c.chunk.clone()).to_vec(),
        stamp: c.stamp.to_bytes().to_vec(),
    }).collect()).map_err(|e| match e {
        nectar_postage_usage::SealError::NonIncreasingTimestamp { timestamp, previous } =>
            SealFault::NotLater { timestamp, previous },
        nectar_postage_usage::SealError::AddressMismatch => SealFault::NotTheOwner,
        e => SealFault::Other(e.to_string()),
    })
}

/// Why a snapshot could not be opened or flushed.
#[derive(Clone, Debug)]
pub enum UsageError {
    /// The node could not be reached, or refused the call.
    Transport(String),
    /// What came is no single-owner chunk.
    Decode(String),
    /// What came is no snapshot, or a snapshot of the batch cannot be made.
    Snapshot(String),
    /// The root names a leaf that is not there.
    MissingLeaf { index: u16 },
    /// The published version is as high as the one to be published, or higher.
    Stale { next: u64, floor: u64 },
    /// The version was not sealed.
    Seal(SealFault),
    /// A reply came that was not asked for.
    OutOfStep,
}

/// What the node answers when asked for a snapshot's chunk.
pub enum FetchReply {
    /// The chunk's wire form.
    Body(Vec<u8>),
    /// The network has no such chunk.
    NotFound,
    /// The read failed, in words.
    Failed(String),
}

/// A fetched payload, or nothing where the chunk does not exist.
pub type Fetched = Result<Option<Vec<u8>>, UsageError>;

/// What a reply means: only a definite answer that there is no such chunk, or
/// an empty chunk, counts as absence; a read that failed is an error. So is
/// what is no single-owner chunk.
pub fn fetched(reply: FetchReply) -> (r: Fetched)
    ensures
        match reply {
            FetchReply::NotFound => r matches Ok(None),
            FetchReply::Failed(t) => match r {
                Err(UsageError::Transport(text)) => text@ == t@,
                _ => false,
            },
            FetchReply::Body(wire) => if wire@.len() == 0 {
                r matches Ok(None)
            } else if is_single_owner(wire@) {
                match r {
                    Ok(Some(data)) => data@ == wire@.skip(105),
                    _ => false,
                }
            } else {
                match r {
                    Err(UsageError::Decode(text)) => text@ == single_owner_fault(wire@),
                    _ => false,
                }
            },
        },
{
    match reply {
        FetchReply::NotFound => Ok(None),
        FetchReply::Failed(t) => Err(UsageError::Transport(t)),
        FetchReply::Body(wire) => {
            if wire.len() == 0 {
                return Ok(None);
            }
            match single_owner_data(wire.as_slice()) {
                Ok(data) => Ok(Some(data)),
                Err(text) => Err(UsageError::Decode(text)),
            }
        },
    }
}

/// Where the opening of a snapshot stands.
#[derive(Clone, Copy, Debug, PartialEq, Eq, Structural)]
pub enum OpenStage {
    /// It waits for the root.
    Root,
    /// It waits for a leaf.
    Leaf,
    /// It is over.
    Over,
}

/// The opening of a batch's snapshot.
pub struct Opening {
    batch: UsageBatch,
    stage: OpenStage,
    root: Vec<u8>,
    count: u16,
    leaves: Vec<Vec<u8>>,
}

/// The opening of a snapshot, as contracts see it.
pub struct OpenView {
    pub batch: UsageBatch,
    pub stage: OpenStage,
    /// The root's payload.
    pub root: Seq<u8>,
    /// The number of leaves that the root names.
    pub count: nat,
    /// The payloads of the leaves so far.
    pub leaves: Seq<Seq<u8>>,
}

impl View for Opening {
    type V = OpenView;

    closed spec fn view(&self) -> OpenView {
        OpenView {
            batch: self.batch,
            stage: self.stage,
            root: self.root@,
            count: self.count as nat,
            leaves: payloads(self.leaves@),
        }
    }
}

/// What the opening of a snapshot does next.
pub enum OpenAction {
    /// Fetch the chunk at an address.
    Fetch(Bytes32),
    /// Return the snapshot.
    Done(nectar_postage_usage::Snapshot),
    /// Return the error.
    Fail(UsageError),
}

/// A snapshot that was never published: all counters are at zero.
pub open spec fn is_fresh(s: nectar_postage_usage::Snapshot, batch: UsageBatch) -> bool {
    &&& usage_counts(s) == Seq::new(pow2(batch.bucket_depth as nat), |i: int| 0u32)
    &&& usage_slots(s) == Seq::<u32>::empty()
    &&& usage_sequence(s) == 0
    &&& usage_batch(s) == batch.id@
    &&& usage_geometry(s) == (batch.depth, batch.bucket_depth)
    &&& usage_mutable(s) == !batch.immutable
    &&& usage_sealed(s) is None
}

/// A snapshot that was read back from its root and its leaves.
pub open spec fn is_recovered(
    s: nectar_postage_usage::Snapshot,
    root: Seq<u8>,
    leaves: Seq<Seq<u8>>,
) -> bool {
    &&& root_fault(root) is None
    &&& assembled(root, leaves) == Ok::<Seq<u32>, Seq<char>>(usage_counts(s))
    &&& usage_slots(s) == root_slots(root)
    &&& usage_sequence(s) == root_sequence(root)
    &&& usage_batch(s) == root.subrange(4, 36)
    &&& usage_geometry(s) == (root[36], root[37])
    &&& usage_mutable(s) == (root[38] % 2 == 1)
    &&& usage_sealed(s) is None
}

/// The opening goes on once `leaves` have arrived: with the next leaf, or, where
/// they are all there, with the snapshot or with what is wrong with the root, or
/// else with the root and its leaves together.
pub open spec fn next_leaf(v: OpenView, w: OpenView, a: OpenAction) -> bool {
    if v.leaves.len() < v.count {
        &&& w == (OpenView { stage: OpenStage::Leaf, ..v })
        &&& match a {
            OpenAction::Fetch(address) => address@ == usage_address(
                v.batch.id@,
                v.batch.owner@,
                v.leaves.len() + 1,
            ),
            _ => false,
        }
    } else {
        &&& w == (OpenView { stage: OpenStage::Over, ..v })
        &&& match a {
            OpenAction::Done(s) => is_recovered(s, v.root, v.leaves),
            OpenAction::Fail(UsageError::Snapshot(text)) => match root_fault(v.root) {
                Some(fault) => text@ == fault,
                None => assembled(v.root, v.leaves) == Err::<Seq<u32>, Seq<char>>(text@),
            },
            _ => false,
        }
    }
}

/// A failed opening.
pub open spec fn open_fails(v: OpenView, w: OpenView, a: OpenAction, e: UsageError) -> bool {
    w == (OpenView { stage: OpenStage::Over, ..v }) && a == OpenAction::Fail(e)
}

/// A step of the opening of a snapshot: from `v`, on a fetched payload, to
/// `w`, with `a` to be done.
///
/// A failed read ends it with that error. Without a root the batch is fresh. A
/// root is followed by its leaves, in order; a leaf that is not there is an
/// error, not absence.
pub open spec fn open_step(v: OpenView, f: Fetched, w: OpenView, a: OpenAction) -> bool {
    match (v.stage, f) {
        (OpenStage::Over, _) => open_fails(v, w, a, UsageError::OutOfStep),
        (_, Err(e)) => open_fails(v, w, a, e),
        (OpenStage::Root, Ok(None)) => {
            &&& w == (OpenView { stage: OpenStage::Over, ..v })
            &&& if is_supported(v.batch.depth, v.batch.bucket_depth) {
                match a {
                    OpenAction::Done(s) => is_fresh(s, v.batch),
                    _ => false,
                }
            } else {
                match a {
                    OpenAction::Fail(UsageError::Snapshot(text)) => text@ == geometry_fault(
                        v.batch.depth,
                        v.batch.bucket_depth,
                    ),
                    _ => false,
                }
            }
        },
        (OpenStage::Root, Ok(Some(root))) => match root_fault(root@) {
            Some(fault) => {
                &&& w == (OpenView { stage: OpenStage::Over, ..v })
                &&& match a {
                    OpenAction::Fail(UsageError::Snapshot(text)) => text@ == fault,
                    _ => false,
                }
            },
            None => next_leaf(
                OpenView {
                    root: root@,
                    count: root_leaves(root@),
                    leaves: Seq::empty(),
                    ..v
                },
                w,
                a,
            ),
        },
        (OpenStage::Leaf, Ok(None)) => open_fails(
            v,
            w,
            a,
            UsageError::MissingLeaf { index: (v.leaves.len() + 1) as u16 },
        ),
        (OpenStage::Leaf, Ok(Some(leaf))) => next_leaf(
            OpenView { leaves: v.leaves.push(leaf@), ..v },
            w,
            a,
        ),
    }
}

impl Opening {
    /// While a leaf is awaited, the root names more leaves than have arrived.
    pub open spec fn wf(self) -> bool {
        self@.stage == OpenStage::Leaf ==> self@.leaves.len() < self@.count <= u16::MAX
    }

    /// The opening of the snapshot of `batch`.
    pub fn new(batch: UsageBatch) -> (o: Opening)
        ensures
            o.wf(),
            o@.batch == batch,
            o@.stage == OpenStage::Root,
    {
        Opening { batch, stage: OpenStage::Root, root: Vec::new(), count: 0, leaves: Vec::new() }
    }

    /// The first thing to do: fetch the root.
    pub fn begin(&self) -> (a: Bytes32)
        ensures
            a@ == usage_address(self@.batch.id@, self@.batch.owner@, 0),
    {
        chunk_address(&self.batch.id, &self.batch.owner, 0)
    }

    fn fail(&mut self, e: UsageError) -> (a: OpenAction)
        ensures
            open_fails(old(self)@, final(self)@, a, e),
            final(self).wf(),
    {
        self.stage = OpenStage::Over;
        OpenAction::Fail(e)
    }

    fn go_on(&mut self) -> (a: OpenAction)
        requires
            old(self)@.leaves.len() <= old(self)@.count,
        ensures
            final(self).wf(),
            next_leaf(old(self)@, final(self)@, a),
    {
        assert(payloads(self.leaves@).len() == self.leaves@.len());
        let arrived: usize = self.leaves.len();
        if arrived < self.count as usize {
            self.stage = OpenStage::Leaf;
            let index: u16 = arrived as u16 + 1;
            return OpenAction::Fetch(chunk_address(&self.batch.id, &self.batch.owner, index));
        }
        self.stage = OpenStage::Over;
        match assemble(self.root.as_slice(), &self.leaves) {
            Ok(s) => OpenAction::Done(s),
            Err(text) => OpenAction::Fail(UsageError::Snapshot(text)),
        }
    }

    /// Takes the root's payload and what reading it gave: the number of its
    /// version and of its leaves, or what is wrong with it.
    pub fn on_root(&mut self, root: Vec<u8>, parsed: Result<(u64, u16), String>) -> (a: OpenAction)
        ensures
            final(self).wf(),
            match parsed {
                Err(text) => {
                    &&& final(self)@ == (OpenView { stage: OpenStage::Over, ..old(self)@ })
                    &&& match a {
                        OpenAction::Fail(UsageError::Snapshot(t)) => t@ == text@,
                        _ => false,
                    }
                },
                Ok((_, count)) => next_leaf(
                    OpenView {
                        root: root@,
                        count: count as nat,
                        leaves: Seq::empty(),
                        ..old(self)@
                    },
                    final(self)@,
                    a,
                ),
            },
    {
        match parsed {
            Err(text) => {
                self.stage = OpenStage::Over;
                OpenAction::Fail(UsageError::Snapshot(text))
            },
            Ok((_, count)) => {
                self.root = root;
                self.count = count;
                self.leaves = Vec::new();
                assert(payloads(self.leaves@) =~= Seq::empty());
                self.go_on()
            },
        }
    }

    /// Takes a fetched payload and says what to do next.
    pub fn on_fetched(&mut self, f: Fetched) -> (a: OpenAction)
        requires
            old(self).wf(),
        ensures
            final(self).wf(),
            open_step(old(self)@, f, final(self)@, a),
    {
        let stage = self.stage;
        match (stage, f) {
            (OpenStage::Over, _) => self.fail(UsageError::OutOfStep),
            (_, Err(e)) => self.fail(e),
            (OpenStage::Root, Ok(None)) => {
                self.stage = OpenStage::Over;
                match fresh_snapshot(&self.batch) {
                    Ok(s) => OpenAction::Done(s),
                    Err(text) => OpenAction::Fail(UsageError::Snapshot(text)),
                }
            },
            (OpenStage::Root, Ok(Some(root))) => {
                let parsed = parse_root(root.as_slice());
                self.on_root(root, parsed)
            },
            (OpenStage::Leaf, Ok(None)) => {
                assert(payloads(self.leaves@).len() == self.leaves@.len());
                let index: u16 = self.leaves.len() as u16 + 1;
                self.fail(UsageError::MissingLeaf { index })
            },
            (OpenStage::Leaf, Ok(Some(leaf))) => {
                let ghost before = self.leaves@;
                let ghost data = leaf@;
                self.leaves.push(leaf);
                assert(payloads(self.leaves@) =~= payloads(before).push(data));
                self.go_on()
            },
        }
    }
}

/// How far a batch has been used, as its snapshot says.
pub fn usage_of(s: &nectar_postage_usage::Snapshot) -> (u: Usage)
    ensures
        match u {
            Usage::Snapshot { sequence, peak } => sequence == usage_sequence(*s) && is_peak(
                usage_counts(*s),
                peak,
            ),
            Usage::Unknown => false,
        },
{
    Usage::Snapshot { sequence: snapshot_sequence(s), peak: snapshot_peak(s) }
}

/// The time of a seal: the clock's, lifted past the last seal.
pub open spec fn next_seal(now: u64, previous: Option<u64>) -> int {
    match previous {
        Some(p) => if now > p {
            now as int
        } else {
            p + 1
        },
        None => now as int,
    }
}

/// The time of a seal: the clock's, but always after the last seal.
pub fn seal_timestamp(now: u64, previous: Option<u64>) -> (t: u64)
    requires
        previous != Some(u64::MAX),
    ensures
        t == next_seal(now, previous),
        t >= now,
        previous matches Some(p) ==> t > p,
{
    match previous {
        Some(p) => if now > p {
            now
        } else {
            p + 1
        },
        None => now,
    }
}

/// The address of a snapshot's root.
pub fn root_address(s: &nectar_postage_usage::Snapshot, owner: &Bytes20) -> (a: Bytes32)
    ensures
        a@ == usage_address(usage_batch(*s), owner@, 0),
{
    chunk_address(&snapshot_batch(s), owner, 0)
}

/// The version that the next one must be above, given what reading the published
/// root gave.
pub fn floor_of(parsed: Result<(u64, u16), String>) -> (r: Result<u64, UsageError>)
    ensures
        match parsed {
            Ok((sequence, _)) => r == Ok::<u64, UsageError>(sequence),
            Err(text) => match r {
                Err(UsageError::Snapshot(t)) => t@ == text@,
                _ => false,
            },
        },
{
    match parsed {
        Ok((sequence, _)) => Ok(sequence),
        Err(text) => Err(UsageError::Snapshot(text)),
    }
}

/// The version that the next one must be above: that of the published root, or
/// zero where there is none. A failed read leaves it unknown and is an error.
pub fn published_floor(f: Fetched) -> (r: Result<u64, UsageError>)
    ensures
        match f {
            Err(e) => r == Err::<u64, UsageError>(e),
            Ok(None) => r == Ok::<u64, UsageError>(0),
            Ok(Some(root)) => match root_fault(root@) {
                Some(fault) => match r {
                    Err(UsageError::Snapshot(text)) => text@ == fault,
                    _ => false,
                },
                None => match r {
                    Ok(floor) => floor == root_sequence(root@),
                    Err(_) => false,
                },
            },
        },
{
    match f {
        Err(e) => Err(e),
        Ok(None) => Ok(0),
        Ok(Some(root)) => floor_of(parse_root(root.as_slice())),
    }
}

/// Whether snapshots of a batch can be flushed: it has at least two buckets.
pub fn can_flush(s: &nectar_postage_usage::Snapshot) -> (r: bool)
    ensures
        r == (usage_geometry(*s).1 >= 1),
{
    snapshot_bucket_depth(s) >= 1
}

/// When a snapshot was last sealed by this process.
pub fn sealed_at(s: &nectar_postage_usage::Snapshot) -> (t: Option<u64>)
    ensures
        t == usage_sealed(*s),
{
    last_sealed(s)
}

/// What a flush that went through has to upload, in order: the chunks of a
/// version above the published one, sealed after the last seal, whose root and
/// leaves hold the snapshot's counters, with the slots that the chunks took.
pub open spec fn flushed(
    before: nectar_postage_usage::Snapshot,
    after: nectar_postage_usage::Snapshot,
    owner: Seq<u8>,
    key: Seq<u8>,
    floor: nat,
    now: u64,
    uploads: Seq<SealedChunk>,
    chunks: Seq<(Seq<u8>, Seq<u8>, u32, u32, Seq<u8>)>,
    timestamp: u64,
) -> bool {
    &&& usage_sequence(after) == usage_sequence(before) + 1
    &&& usage_sequence(after) > floor
    &&& usage_batch(after) == usage_batch(before)
    &&& usage_geometry(after) == usage_geometry(before)
    &&& usage_mutable(after) == usage_mutable(before)
    &&& usage_sealed(after) == Some(timestamp)
    &&& timestamp == next_seal(now, usage_sealed(before))
    &&& plan_fits(
        chunks,
        usage_batch(before),
        owner,
        usage_geometry(before).1 as nat,
        usage_slots(after),
    )
    &&& reads_back(chunks, after)
    &&& allots(before, after, owner)
    &&& uploads.len() == chunks.len()
    &&& forall|i: int|
        0 <= i < uploads.len() ==> seals(
            #[trigger] uploads[i],
            chunks[i],
            usage_batch(before),
            timestamp,
            key,
        )
}

/// A flush that went through, for some chunks and some time.
pub open spec fn goes_through(
    before: nectar_postage_usage::Snapshot,
    after: nectar_postage_usage::Snapshot,
    owner: Seq<u8>,
    key: Seq<u8>,
    floor: nat,
    now: u64,
    uploads: Seq<SealedChunk>,
) -> bool {
    exists|chunks: Seq<(Seq<u8>, Seq<u8>, u32, u32, Seq<u8>)>, timestamp: u64|
        #[trigger] flushed(before, after, owner, key, floor, now, uploads, chunks, timestamp)
}

/// A plan for a snapshot that was not sealed at a time after the last seal. Its
/// root and leaves hold the counters that the snapshot has then, with the slots
/// that the chunks took.
pub open spec fn left_unsealed(
    before: nectar_postage_usage::Snapshot,
    after: nectar_postage_usage::Snapshot,
    owner: Seq<u8>,
    key: Seq<u8>,
    now: u64,
    fault: SealFault,
    plan: nectar_postage_usage::PersistPlan,
    timestamp: u64,
) -> bool {
    &&& plan_fits(
        plan_chunks(plan),
        usage_batch(before),
        owner,
        usage_geometry(before).1 as nat,
        usage_slots(after),
    )
    &&& plan_batch(plan) == usage_batch(before)
    &&& reads_back(plan_chunks(plan), after)
    &&& allots(before, after, owner)
    &&& timestamp == next_seal(now, usage_sealed(before))
    &&& seal_refused(plan, timestamp, key, fault)
}

/// What comes of a flush. A failed read of the root, and a root that is no
/// snapshot, are errors, and nothing changes; so is a published version that the
/// next one would not be above. A next version that cannot be planned is an
/// error, and all but the snapshot's number is kept. Otherwise the version is
/// sealed, unless the key is not the owner's or signing fails.
pub open spec fn flush_outcome(
    before: nectar_postage_usage::Snapshot,
    after: nectar_postage_usage::Snapshot,
    owner: Seq<u8>,
    key: Seq<u8>,
    root: Fetched,
    now: u64,
    r: Result<Vec<SealedChunk>, UsageError>,
) -> bool {
    match root {
        Err(e) => r == Err::<Vec<SealedChunk>, UsageError>(e) && after == before,
        Ok(f) => match published(f) {
            Err(fault) => after == before && match r {
                Err(UsageError::Snapshot(text)) => text@ == fault,
                _ => false,
            },
            Ok(floor) => match r {
                Ok(uploads) => plan_fault(before, owner) is None && goes_through(
                    before,
                    after,
                    owner,
                    key,
                    floor,
                    now,
                    uploads@,
                ),
                Err(UsageError::Stale { next, floor: f }) => after == before && next
                    == usage_sequence(before) + 1 && f == floor && next <= floor,
                Err(UsageError::Snapshot(text)) => plan_fault(before, owner) == Some(text@)
                    && keeps_all_but_number(before, after) && (usage_sequence(before) == u64::MAX
                    || usage_sequence(before) + 1 > floor),
                Err(UsageError::Seal(fault)) => {
                    &&& plan_fault(before, owner) is None
                    &&& usage_sequence(before) + 1 > floor
                    &&& usage_sequence(after) == usage_sequence(before) + 1
                    &&& usage_sealed(after) == usage_sealed(before)
                    &&& usage_mutable(after) == usage_mutable(before)
                    &&& unsealed(before, after, owner, key, now, fault)
                },
                Err(_) => false,
            },
        },
    }
}

/// A version that was planned and not sealed.
pub open spec fn unsealed(
    before: nectar_postage_usage::Snapshot,
    after: nectar_postage_usage::Snapshot,
    owner: Seq<u8>,
    key: Seq<u8>,
    now: u64,
    fault: SealFault,
) -> bool {
    exists|plan: nectar_postage_usage::PersistPlan, timestamp: u64| #[trigger]
        left_unsealed(before, after, owner, key, now, fault, plan, timestamp)
}

/// The owner's key is never taken for a stranger's: where a flush is refused for
/// its key, the key's account is not the owner.
pub proof fn owner_is_not_refused(
    before: nectar_postage_usage::Snapshot,
    after: nectar_postage_usage::Snapshot,
    owner: Seq<u8>,
    key: Seq<u8>,
    now: u64,
)
    requires
        unsealed(before, after, owner, key, now, SealFault::NotTheOwner),
    ensures
        owner != account_of(key),
{
    let (plan, timestamp) = choose|plan: nectar_postage_usage::PersistPlan, timestamp: u64|
        #[trigger] left_unsealed(
            before,
            after,
            owner,
            key,
            now,
            SealFault::NotTheOwner,
            plan,
            timestamp,
        );
    let chunks = plan_chunks(plan);
    let i = choose|i: int|
        0 <= i < chunks.len() && chunk_refused(
            #[trigger] chunks[i],
            plan_batch(plan),
            timestamp,
            key,
            SealFault::NotTheOwner,
        );
    assert(chunks[i].1 == usage_address(usage_batch(before), owner, i as nat));
}

/// Why a snapshot was not flushed, where its next version was not planned.
pub fn not_planned(fault: PlanFault) -> (e: UsageError)
    ensures
        match fault {
            PlanFault::Stale { next, floor } => e == (UsageError::Stale { next, floor }),
            PlanFault::Other(text) => match e {
                UsageError::Snapshot(t) => t@ == text@,
                _ => false,
            },
        },
{
    match fault {
        PlanFault::Stale { next, floor } => UsageError::Stale { next, floor },
        PlanFault::Other(text) => UsageError::Snapshot(text),
    }
}

/// Flushes a snapshot: given what was fetched for its root, plans the next
/// version, seals it, and returns what to upload, in order. Nothing is planned
/// where the published version is not known, and nothing is sealed where the
/// next one would not be above it.
#[verifier::spinoff_prover]
#[verifier::rlimit(60)]
pub fn flush_snapshot(
    s: &mut nectar_postage_usage::Snapshot,
    owner: &Bytes20,
    key: &SigningKey,
    root: Fetched,
    now: u64,
) -> (r: Result<Vec<SealedChunk>, UsageError>)
    requires
        key.wf(),
        usage_geometry(*old(s)).1 >= 1,
        usage_sealed(*old(s)) != Some(u64::MAX),
    ensures
        usage_batch(*final(s)) == usage_batch(*old(s)),
        usage_geometry(*final(s)) == usage_geometry(*old(s)),
        usage_mutable(*final(s)) == usage_mutable(*old(s)),
        keeps_counters(*old(s), *final(s), owner@),
        flush_outcome(*old(s), *final(s), owner@, key@, root, now, r),
{
    let floor: u64 = match published_floor(root) {
        Ok(n) => n,
        Err(e) => {
            return Err(e);
        },
    };
    let plan = match plan_next(s, floor, owner) {
        Ok(p) => p,
        Err(fault) => {
            return Err(not_planned(fault));
        },
    };
    proof {
        planning_keeps_the_counters(*old(s), *s, owner@);
    }
    let timestamp: u64 = seal_timestamp(now, last_sealed(s));
    match seal(s, &plan, timestamp, key) {
        Ok(uploads) => {
            assert(flushed(
                *old(s),
                *s,
                owner@,
                key@,
                floor as nat,
                now,
                uploads@,
                plan_chunks(plan),
                timestamp,
            ));
            assert(goes_through(*old(s), *s, owner@, key@, floor as nat, now, uploads@));
            Ok(uploads)
        },
        Err(fault) => {
            assert(left_unsealed(*old(s), *s, owner@, key@, now, fault, plan, timestamp));
            Err(UsageError::Seal(fault))
        },
    }
}

/// What is sent to upload a chunk of a flush.
pub fn upload_request(c: SealedChunk) -> (q: UploadRequest)
    ensures
        q.data@ == c.wire@,
        q.stamp@ == c.stamp@,
        q.address@ == c.address@,
        q.kind == ChunkKind::SingleOwner,
        !q.validate,
{
    UploadRequest {
        data: c.wire,
        stamp: c.stamp,
        address: c.address,
        kind: ChunkKind::SingleOwner,
        validate: false,
    }
}

/// The published version, as a fetched root has it.
pub open spec fn published(f: Option<Vec<u8>>) -> Result<nat, Seq<char>> {
    match f {
        None => Ok(0),
        Some(root) => match root_fault(root@) {
            Some(fault) => Err(fault),
            None => Ok(root_sequence(root@)),
        },
    }
}

/// The payload that a fetched chunk of a flush holds.
pub open spec fn stored_payload(c: SealedChunk) -> Seq<u8> {
    c.wire@.skip(105)
}

/// The payloads of the leaves of a flush.
pub open spec fn stored_leaves(uploads: Seq<SealedChunk>) -> Seq<Seq<u8>> {
    Seq::new((uploads.len() - 1) as nat, |i: int| stored_payload(uploads[i + 1]))
}

proof fn lemma_sealed_payload(
    c: SealedChunk,
    planned: (Seq<u8>, Seq<u8>, u32, u32, Seq<u8>),
    batch: Seq<u8>,
    timestamp: u64,
    key: Seq<u8>,
)
    requires
        seals(c, planned, batch, timestamp, key),
        planned.4.len() <= 4096,
    ensures
        is_single_owner(c.wire@),
        stored_payload(c) == planned.4,
{
    crate::chunkops::built_chunk_holds_its_data(planned.4);
    assert(c.wire@.skip(105) =~= c.wire@.skip(97).skip(8));
}

/// A flush never downgrades: what is then published at the root's address is a
/// version above the one that was published before, and the snapshot's own.
pub proof fn flush_raises_the_published_version(
    before: nectar_postage_usage::Snapshot,
    after: nectar_postage_usage::Snapshot,
    owner: Seq<u8>,
    key: Seq<u8>,
    floor: nat,
    now: u64,
    uploads: Seq<SealedChunk>,
)
    requires
        goes_through(before, after, owner, key, floor, now, uploads),
    ensures
        uploads.len() > 0,
        uploads[0].address@ == usage_address(usage_batch(before), owner, 0),
        is_single_owner(uploads[0].wire@),
        root_fault(stored_payload(uploads[0])) is None,
        root_sequence(stored_payload(uploads[0])) > floor,
        root_sequence(stored_payload(uploads[0])) == usage_sequence(after),
{
    let (chunks, timestamp) = choose|
        chunks: Seq<(Seq<u8>, Seq<u8>, u32, u32, Seq<u8>)>,
        timestamp: u64,
    | #[trigger] flushed(before, after, owner, key, floor, now, uploads, chunks, timestamp);
    assert(seals(uploads[0], chunks[0], usage_batch(before), timestamp, key));
    assert(chunks[0].4.len() <= 4096);
    lemma_sealed_payload(uploads[0], chunks[0], usage_batch(before), timestamp, key);
}

/// A flushed snapshot can be opened anywhere: its chunks stand at the addresses
/// that an opening asks for, the root names as many leaves as there are, and
/// what an opening recovers from them has the batch, the slots, the version and
/// the counters of the snapshot after the flush. Those are the counters that it
/// had before, but for the slots that its own chunks took.
pub proof fn flushed_snapshot_is_recovered(
    before: nectar_postage_usage::Snapshot,
    after: nectar_postage_usage::Snapshot,
    owner: Seq<u8>,
    key: Seq<u8>,
    floor: nat,
    now: u64,
    uploads: Seq<SealedChunk>,
)
    requires
        goes_through(before, after, owner, key, floor, now, uploads),
    ensures
        uploads.len() > 0,
        forall|i: int|
            0 <= i < uploads.len() ==> (#[trigger] uploads[i]).address@ == usage_address(
                usage_batch(after),
                owner,
                i as nat,
            ) && is_single_owner(uploads[i].wire@),
        root_fault(stored_payload(uploads[0])) is None,
        root_leaves(stored_payload(uploads[0])) == uploads.len() - 1,
        assembled(stored_payload(uploads[0]), stored_leaves(uploads)) is Ok,
        forall|s: nectar_postage_usage::Snapshot|
            is_recovered(s, stored_payload(uploads[0]), stored_leaves(uploads)) ==> {
                &&& #[trigger] usage_counts(s) == usage_counts(after)
                &&& usage_slots(s) == usage_slots(after)
                &&& keeps_counters(before, s, owner)
                &&& usage_sequence(s) == usage_sequence(after)
                &&& usage_batch(s) == usage_batch(after)
                &&& usage_geometry(s) == usage_geometry(after)
                &&& usage_mutable(s) == usage_mutable(after)
            },
{
    let (chunks, timestamp) = choose|
        chunks: Seq<(Seq<u8>, Seq<u8>, u32, u32, Seq<u8>)>,
        timestamp: u64,
    | #[trigger] flushed(before, after, owner, key, floor, now, uploads, chunks, timestamp);
    assert forall|i: int| 0 <= i < uploads.len() implies {
        &&& (#[trigger] uploads[i]).address@ == usage_address(usage_batch(after), owner, i as nat)
        &&& is_single_owner(uploads[i].wire@)
        &&& stored_payload(uploads[i]) == chunks[i].4
    } by {
        assert(seals(uploads[i], chunks[i], usage_batch(before), timestamp, key));
        assert(chunks[i].4.len() <= 4096);
        lemma_sealed_payload(uploads[i], chunks[i], usage_batch(before), timestamp, key);
    }
    assert(stored_payload(uploads[0]) == root_payload(chunks));
    assert forall|i: int| 0 <= i < uploads.len() - 1 implies stored_leaves(uploads)[i]
        == leaf_payloads(chunks)[i] by {
        assert(stored_payload(uploads[i + 1]) == chunks[i + 1].4);
    }
    assert(stored_leaves(uploads) =~= leaf_payloads(chunks));
    planning_keeps_the_counters(before, after, owner);
}

/// A later flush overwrites an earlier one in place: where both hold a chunk, it
/// has the same address and the same slot, and, where no other seal lies
/// between, a later time.
pub proof fn later_flush_overwrites_in_place(
    before: nectar_postage_usage::Snapshot,
    after: nectar_postage_usage::Snapshot,
    again: nectar_postage_usage::Snapshot,
    last: nectar_postage_usage::Snapshot,
    owner: Seq<u8>,
    key: Seq<u8>,
    floor: nat,
    now: u64,
    uploads: Seq<SealedChunk>,
    next_floor: nat,
    next_now: u64,
    next_uploads: Seq<SealedChunk>,
    i: int,
)
    requires
        goes_through(before, after, owner, key, floor, now, uploads),
        goes_through(again, last, owner, key, next_floor, next_now, next_uploads),
        usage_batch(again) == usage_batch(after),
        usage_geometry(again).1 == usage_geometry(after).1,
        usage_slots(again) == usage_slots(after),
        0 <= i < uploads.len(),
        i < next_uploads.len(),
    ensures
        next_uploads[i].address@ == uploads[i].address@,
        next_uploads[i].stamp@.subrange(32, 40) == uploads[i].stamp@.subrange(32, 40),
        usage_sealed(again) == usage_sealed(after) ==> be_value(
            next_uploads[i].stamp@.subrange(40, 48),
        ) > be_value(uploads[i].stamp@.subrange(40, 48)),
{
    let (chunks, time) = choose|
        chunks: Seq<(Seq<u8>, Seq<u8>, u32, u32, Seq<u8>)>,
        timestamp: u64,
    | #[trigger] flushed(before, after, owner, key, floor, now, uploads, chunks, timestamp);
    let (next_chunks, next_time) = choose|
        chunks: Seq<(Seq<u8>, Seq<u8>, u32, u32, Seq<u8>)>,
        timestamp: u64,
    | #[trigger]
        flushed(
            again,
            last,
            owner,
            key,
            next_floor,
            next_now,
            next_uploads,
            chunks,
            timestamp,
        );
    let first = uploads[i];
    let second = next_uploads[i];
    assert(seals(first, chunks[i], usage_batch(before), time, key));
    assert(seals(second, next_chunks[i], usage_batch(again), next_time, key));
    assert(usage_slots(last)[i] == usage_slots(last).take(usage_slots(again).len() as int)[i]);
    assert(next_chunks[i].3 == chunks[i].3);
    assert(next_chunks[i].2 == chunks[i].2);
    assert(first.stamp@.subrange(32, 40) =~= first.stamp@.subrange(32, 36) + first.stamp@.subrange(
        36,
        40,
    ));
    assert(second.stamp@.subrange(32, 40) =~= second.stamp@.subrange(32, 36)
        + second.stamp@.subrange(36, 40));
    vstd::arithmetic::power2::lemma2_to64();
    crate::bytes::be_round_trip(time as nat, 8);
    crate::bytes::be_round_trip(next_time as nat, 8);
}

/// A failed read opens nothing: a snapshot comes out of an opening only on a
/// read that went through, and a fresh one only where the root is absent.
pub proof fn failed_read_opens_nothing(v: OpenView, f: Fetched, w: OpenView, a: OpenAction)
    requires
        open_step(v, f, w, a),
        a is Done,
    ensures
        f is Ok,
        v.stage == OpenStage::Root || v.stage == OpenStage::Leaf,
        v.stage == OpenStage::Leaf ==> f->Ok_0 is Some,
        f->Ok_0 is None ==> v.stage == OpenStage::Root && is_fresh(a->Done_0, v.batch),
{
}

/// The words for a version that was not sealed.
pub open spec fn seal_message(f: SealFault) -> Seq<char> {
    match f {
        SealFault::NotLater { timestamp, previous } => "seal timestamp "@ + dec(timestamp as nat)
            + " does not exceed previous seal timestamp "@ + dec(previous as nat),
        SealFault::NotTheOwner => "sealed chunk address does not match plan"@,
        SealFault::Other(text) => text@,
    }
}

/// The words for a snapshot that could not be opened or flushed.
pub open spec fn usage_message(e: UsageError) -> Seq<char> {
    match e {
        UsageError::Transport(text) => "grpc transport error: "@ + text@,
        UsageError::Decode(text) => "usage chunk decode error: "@ + text@,
        UsageError::Snapshot(text) => text@,
        UsageError::MissingLeaf { index } => "published usage root commits to leaf "@ + dec(
            index as nat,
        ) + " but the network reports it absent (snapshot corruption)"@,
        UsageError::Stale { next, floor } => "persist sequence "@ + dec(next as nat)
            + " does not exceed published floor "@ + dec(floor as nat),
        UsageError::Seal(fault) => seal_message(fault),
        UsageError::OutOfStep => "unexpected reply from the node"@,
    }
}

impl UsageError {
    /// The words for the error.
    pub fn message(&self) -> (s: String)
        ensures
            s@ == usage_message(*self),
    {
        match self {
            UsageError::Transport(text) => join2("grpc transport error: ", text.as_str()),
            UsageError::Decode(text) => join2("usage chunk decode error: ", text.as_str()),
            UsageError::Snapshot(text) => text.clone(),
            UsageError::MissingLeaf { index } => {
                let mut s = String::from_str("published usage root commits to leaf ");
                s.append(decimal(*index as u64).as_str());
                s.append(" but the network reports it absent (snapshot corruption)");
                s
            },
            UsageError::Stale { next, floor } => {
                let mut s = String::from_str("persist sequence ");
                s.append(decimal(*next).as_str());
                s.append(" does not exceed published floor ");
                s.append(decimal(*floor).as_str());
                s
            },
            UsageError::Seal(SealFault::NotLater { timestamp, previous }) => {
                let mut s = String::from_str("seal timestamp ");
                s.append(decimal(*timestamp).as_str());
                s.append(" does not exceed previous seal timestamp ");
                s.append(decimal(*previous).as_str());
                s
            },
            UsageError::Seal(SealFault::NotTheOwner) => String::from_str(
                "sealed chunk address does not match plan",
            ),
            UsageError::Seal(SealFault::Other(text)) => text.clone(),
            UsageError::OutOfStep => String::from_str("unexpected reply from the node"),
        }
    }
}

/// A run of an opening: it starts with the root, and each reply leads on to what is
/// done next.
pub open spec fn open_run(
    views: Seq<OpenView>,
    replies: Seq<Fetched>,
    actions: Seq<OpenAction>,
) -> bool {
    &&& views.len() == replies.len() + 1
    &&& actions.len() == replies.len()
    &&& views[0].stage == OpenStage::Root
    &&& forall|k: int|
        0 <= k < replies.len() ==> open_step(
            views[k],
            #[trigger] replies[k],
            views[k + 1],
            actions[k],
        )
}

/// Whether replies hold a root and then payloads, in order.
pub open spec fn replies_hold(replies: Seq<Fetched>, payloads: Seq<Seq<u8>>) -> bool {
    &&& replies.len() == payloads.len()
    &&& forall|k: int|
        0 <= k < replies.len() ==> match #[trigger] replies[k] {
            Ok(Some(payload)) => payload@ == payloads[k],
            _ => false,
        }
}

proof fn lemma_leaves_arrive(
    views: Seq<OpenView>,
    replies: Seq<Fetched>,
    actions: Seq<OpenAction>,
    root: Seq<u8>,
    leaves: Seq<Seq<u8>>,
    k: int,
)
    requires
        open_run(views, replies, actions),
        replies_hold(replies, seq![root] + leaves),
        root_fault(root) is None,
        root_leaves(root) == leaves.len(),
        0 <= k <= leaves.len(),
    ensures
        next_leaf(
            OpenView {
                batch: views[0].batch,
                stage: views[k].stage,
                root,
                count: leaves.len(),
                leaves: leaves.take(k),
            },
            views[k + 1],
            actions[k],
        ),
    decreases k,
{
    let all = seq![root] + leaves;
    assert(open_step(views[k], replies[k], views[k + 1], actions[k]));
    if k == 0 {
        assert(all[0] == root);
        assert(leaves.take(0) =~= Seq::<Seq<u8>>::empty());
    } else {
        lemma_leaves_arrive(views, replies, actions, root, leaves, k - 1);
        assert(all[k] == leaves[k - 1]);
        assert(leaves.take(k - 1).push(leaves[k - 1]) =~= leaves.take(k));
    }
}

/// An opening asks for every leaf that the root names: where the root and then
/// the leaves arrive, each reply but the last is followed by a request for the next
/// leaf, counted from one, at the hash of its id and the owner; its id is the hash
/// of the domain, the batch and its number in two bytes. The last leaf is followed
/// by the snapshot that the root and all of the leaves hold, or, where they do not
/// go together, by what is wrong with them.
pub proof fn opening_asks_for_every_leaf(
    views: Seq<OpenView>,
    replies: Seq<Fetched>,
    actions: Seq<OpenAction>,
    root: Seq<u8>,
    leaves: Seq<Seq<u8>>,
)
    requires
        open_run(views, replies, actions),
        replies_hold(replies, seq![root] + leaves),
        root_fault(root) is None,
        root.len() >= 66,
        leaves.len() == 256 * root[62] + root[63],
    ensures
        forall|k: int|
            0 <= k < leaves.len() ==> match #[trigger] actions[k] {
                OpenAction::Fetch(address) => address@ == keccak(
                    keccak(
                        vstd::utf8::encode_utf8("swarm-batch-usage"@) + views[0].batch.id@ + seq![
                            ((k + 1) / 256) as u8,
                            ((k + 1) % 256) as u8,
                        ],
                    ) + views[0].batch.owner@,
                ),
                _ => false,
            },
        match actions[leaves.len() as int] {
            OpenAction::Done(s) => {
                &&& assembled(root, leaves) == Ok::<Seq<u32>, Seq<char>>(usage_counts(s))
                &&& usage_sequence(s) == be_value(root.subrange(40, 48))
                &&& usage_batch(s) == root.subrange(4, 36)
                &&& usage_geometry(s) == (root[36], root[37])
                &&& usage_mutable(s) == (root[38] % 2 == 1)
                &&& usage_slots(s).len() == 256 * root[60] + root[61]
                &&& usage_sealed(s) is None
            },
            OpenAction::Fail(UsageError::Snapshot(text)) => assembled(root, leaves) == Err::<
                Seq<u32>,
                Seq<char>,
            >(text@),
            _ => false,
        },
{
    crate::bytes::two_bytes(root.subrange(62, 64), 0);
    crate::bytes::two_bytes(root.subrange(60, 62), 0);
    assert forall|k: int| 0 <= k < leaves.len() implies match #[trigger] actions[k] {
        OpenAction::Fetch(address) => address@ == keccak(
            keccak(
                vstd::utf8::encode_utf8("swarm-batch-usage"@) + views[0].batch.id@ + seq![
                    ((k + 1) / 256) as u8,
                    ((k + 1) % 256) as u8,
                ],
            ) + views[0].batch.owner@,
        ),
        _ => false,
    } by {
        lemma_leaves_arrive(views, replies, actions, root, leaves, k);
        assert(leaves.take(k).len() == k);
        crate::bytes::two_bytes(root.subrange(62, 64), (k + 1) as nat);
    }
    lemma_leaves_arrive(views, replies, actions, root, leaves, leaves.len() as int);
    assert(leaves.take(leaves.len() as int) =~= leaves);
}

/// What a flush uploaded can be opened again: where each reply is the payload of the
/// next chunk of the flush, every request of the opening is for the address of the
/// chunk that follows, and the opening ends in the flushed snapshot: its counters,
/// its slots, its version and its batch.
pub proof fn flushed_snapshot_opens(
    before: nectar_postage_usage::Snapshot,
    after: nectar_postage_usage::Snapshot,
    owner: Seq<u8>,
    key: Seq<u8>,
    floor: nat,
    now: u64,
    uploads: Seq<SealedChunk>,
    views: Seq<OpenView>,
    replies: Seq<Fetched>,
    actions: Seq<OpenAction>,
)
    requires
        goes_through(before, after, owner, key, floor, now, uploads),
        open_run(views, replies, actions),
        views[0].batch.id@ == usage_batch(after),
        views[0].batch.owner@ == owner,
        replies.len() == uploads.len(),
        forall|k: int|
            0 <= k < replies.len() ==> match #[trigger] replies[k] {
                Ok(Some(payload)) => payload@ == uploads[k].wire@.skip(105),
                _ => false,
            },
    ensures
        uploads.len() > 0,
        forall|k: int|
            0 <= k < uploads.len() - 1 ==> match #[trigger] actions[k] {
                OpenAction::Fetch(address) => address@ == uploads[k + 1].address@,
                _ => false,
            },
        match actions.last() {
            OpenAction::Done(s) => {
                &&& usage_counts(s) == usage_counts(after)
                &&& usage_slots(s) == usage_slots(after)
                &&& usage_sequence(s) == usage_sequence(after)
                &&& usage_batch(s) == usage_batch(after)
                &&& usage_geometry(s) == usage_geometry(after)
                &&& usage_mutable(s) == usage_mutable(after)
            },
            _ => false,
        },
{
    flushed_snapshot_is_recovered(before, after, owner, key, floor, now, uploads);
    let root = stored_payload(uploads[0]);
    let leaves = stored_leaves(uploads);
    assert forall|k: int| 0 <= k < replies.len() implies match #[trigger] replies[k] {
        Ok(Some(payload)) => payload@ == (seq![root] + leaves)[k],
        _ => false,
    } by {
        if k > 0 {
            assert((seq![root] + leaves)[k] == leaves[k - 1]);
        }
    }
    let n = leaves.len() as int;
    assert forall|k: int| 0 <= k < uploads.len() - 1 implies match #[trigger] actions[k] {
        OpenAction::Fetch(address) => address@ == uploads[k + 1].address@,
        _ => false,
    } by {
        lemma_leaves_arrive(views, replies, actions, root, leaves, k);
        assert(leaves.take(k).len() == k);
    }
    lemma_leaves_arrive(views, replies, actions, root, leaves, n);
    assert(leaves.take(n) =~= leaves);
    if let OpenAction::Done(s) = actions[n] {
        assert(is_recovered(s, root, leaves));
        assert(usage_counts(s) == usage_counts(after));
    }
}

/// A leaf that the root names and that is not there ends the opening: with the
/// leaf's number, and without a snapshot.
pub proof fn missing_leaf_is_named(
    views: Seq<OpenView>,
    replies: Seq<Fetched>,
    actions: Seq<OpenAction>,
    root: Seq<u8>,
    leaves: Seq<Seq<u8>>,
)
    requires
        open_run(views, replies, actions),
        replies.len() == leaves.len() + 2,
        forall|k: int|
            0 <= k <= leaves.len() ==> match #[trigger] replies[k] {
                Ok(Some(payload)) => payload@ == (seq![root] + leaves)[k],
                _ => false,
            },
        replies.last() matches Ok(None),
        root_fault(root) is None,
        root.len() >= 66,
        leaves.len() < 256 * root[62] + root[63],
    ensures
        actions.last() is Fail,
        actions.last()->Fail_0 is MissingLeaf,
        actions.last()->Fail_0->index == leaves.len() + 1,
{
    crate::bytes::two_bytes(root.subrange(62, 64), 0);
    let n = leaves.len() as int;
    lemma_some_leaves_arrive(views, replies, actions, root, leaves, n);
    assert(open_step(views[n + 1], replies[n + 1], views[n + 2], actions[n + 1]));
    assert(leaves.take(n) =~= leaves);
}

proof fn lemma_some_leaves_arrive(
    views: Seq<OpenView>,
    replies: Seq<Fetched>,
    actions: Seq<OpenAction>,
    root: Seq<u8>,
    leaves: Seq<Seq<u8>>,
    k: int,
)
    requires
        open_run(views, replies, actions),
        0 <= k <= leaves.len() < replies.len(),
        forall|k: int|
            0 <= k <= leaves.len() ==> match #[trigger] replies[k] {
                Ok(Some(payload)) => payload@ == (seq![root] + leaves)[k],
                _ => false,
            },
        root_fault(root) is None,
        leaves.len() < root_leaves(root),
    ensures
        views[k + 1].stage == OpenStage::Leaf,
        views[k + 1].count == root_leaves(root),
        views[k + 1].leaves == leaves.take(k),
    decreases k,
{
    let all = seq![root] + leaves;
    assert(open_step(views[k], replies[k], views[k + 1], actions[k]));
    if k == 0 {
        assert(all[0] == root);
        assert(leaves.take(0) =~= Seq::<Seq<u8>>::empty());
    } else {
        lemma_some_leaves_arrive(views, replies, actions, root, leaves, k - 1);
        assert(all[k] == leaves[k - 1]);
        assert(leaves.take(k - 1).push(leaves[k - 1]) =~= leaves.take(k));
    }
}

/// A batch whose root is absent starts afresh: two to the power of the bucket depth
/// counters, all at zero, no version and no slots, under the batch's own id, depths
/// and mutability. Only depths that the format cannot hold are refused.
pub proof fn absent_root_starts_afresh(
    views: Seq<OpenView>,
    replies: Seq<Fetched>,
    actions: Seq<OpenAction>,
)
    requires
        open_run(views, replies, actions),
        replies.len() == 1,
        replies[0] matches Ok(None),
    ensures
        ({
            let batch = views[0].batch;
            match actions[0] {
                OpenAction::Done(s) => {
                    &&& usage_counts(s).len() == pow2(batch.bucket_depth as nat)
                    &&& forall|b: int|
                        0 <= b < usage_counts(s).len() ==> #[trigger] usage_counts(s)[b] == 0
                    &&& usage_slots(s).len() == 0
                    &&& usage_sequence(s) == 0
                    &&& usage_batch(s) == batch.id@
                    &&& usage_geometry(s) == (batch.depth, batch.bucket_depth)
                    &&& usage_mutable(s) == !batch.immutable
                    &&& usage_sealed(s) is None
                },
                OpenAction::Fail(UsageError::Snapshot(text)) => batch.bucket_depth > 16
                    || batch.depth < batch.bucket_depth || batch.depth > batch.bucket_depth + 31,
                _ => false,
            }
        }),
{
    assert(open_step(views[0], replies[0], views[1], actions[0]));
}

/// A read that failed ends an opening with its own error, wherever it stands, and
/// nothing follows: every later reply is out of step.
pub proof fn failed_read_ends_the_opening(
    views: Seq<OpenView>,
    replies: Seq<Fetched>,
    actions: Seq<OpenAction>,
    k: int,
)
    requires
        open_run(views, replies, actions),
        0 <= k < replies.len(),
        replies[k] is Err,
        forall|j: int| 0 <= j < k ==> #[trigger] actions[j] is Fetch,
    ensures
        actions[k] == OpenAction::Fail(replies[k]->Err_0),
        k + 1 < replies.len() ==> actions[k + 1] == OpenAction::Fail(UsageError::OutOfStep),
{
    assert(open_step(views[k], replies[k], views[k + 1], actions[k]));
    if k > 0 {
        assert(actions[k - 1] is Fetch);
        assert(open_step(views[k - 1], replies[k - 1], views[k], actions[k - 1]));
    }
    if k + 1 < replies.len() {
        assert(open_step(views[k + 1], replies[k + 1], views[k + 2], actions[k + 1]));
    }
}

/// A flush over a published root goes through only above that root's version, which
/// stands in its bytes 40 to 47, the most significant first. The time of its stamps
/// is the clock's, or one past the last seal where the clock has not come that far.
pub proof fn flush_goes_above_the_root(
    before: nectar_postage_usage::Snapshot,
    after: nectar_postage_usage::Snapshot,
    owner: Seq<u8>,
    key: Seq<u8>,
    root: Vec<u8>,
    now: u64,
    uploads: Vec<SealedChunk>,
)
    requires
        root@.len() >= 66,
        flush_outcome(before, after, owner, key, Ok(Some(root)), now, Ok(uploads)),
    ensures
        root_fault(root@) is None,
        usage_sequence(after) == usage_sequence(before) + 1,
        usage_sequence(after) > 0x1_0000_0000 * (0x100_0000 * root@[40] + 0x1_0000 * root@[41]
            + 0x100 * root@[42] + root@[43]) + 0x100_0000 * root@[44] + 0x1_0000 * root@[45] + 0x100
            * root@[46] + root@[47],
        usage_sealed(before) is None ==> usage_sealed(after) == Some(now),
        usage_sealed(before) matches Some(p) ==> usage_sealed(after) == Some(
            if p < now {
                now
            } else {
                (p + 1) as u64
            },
        ),
        forall|i: int|
            0 <= i < uploads@.len() ==> be_value((#[trigger] uploads@[i]).stamp@.subrange(40, 48))
                == usage_sealed(after)->Some_0,
{
    let floor = root_sequence(root@);
    crate::bytes::eight_bytes(root@.subrange(40, 48));
    let (chunks, timestamp) = choose|
        chunks: Seq<(Seq<u8>, Seq<u8>, u32, u32, Seq<u8>)>,
        timestamp: u64,
    | #[trigger] flushed(before, after, owner, key, floor, now, uploads@, chunks, timestamp);
    vstd::arithmetic::power2::lemma2_to64();
    crate::bytes::be_round_trip(timestamp as nat, 8);
    assert forall|i: int| 0 <= i < uploads@.len() implies be_value(
        (#[trigger] uploads@[i]).stamp@.subrange(40, 48),
    ) == timestamp by {
        assert(seals(uploads@[i], chunks[i], usage_batch(before), timestamp, key));
    }
}

/// A flush over a root whose version is as high as the next, or higher, is refused,
/// and so is one that could not read the root; the snapshot is as it was. Where the
/// root is absent nothing is too low.
pub proof fn stale_flush_changes_nothing(
    before: nectar_postage_usage::Snapshot,
    after: nectar_postage_usage::Snapshot,
    owner: Seq<u8>,
    key: Seq<u8>,
    fetched: Fetched,
    now: u64,
    r: Result<Vec<SealedChunk>, UsageError>,
)
    requires
        flush_outcome(before, after, owner, key, fetched, now, r),
    ensures
        fetched is Err ==> r == Err::<Vec<SealedChunk>, UsageError>(fetched->Err_0) && after
            == before,
        fetched matches Ok(Some(root)) ==> root_fault(root@) is None && be_value(
            root@.subrange(40, 48),
        ) > usage_sequence(before) ==> r is Err,
        fetched is Ok ==> (r matches Err(UsageError::Stale { next, floor }) ==> {
            &&& after == before
            &&& next == usage_sequence(before) + 1
            &&& next <= floor
            &&& fetched matches Ok(Some(root)) && floor == be_value(root@.subrange(40, 48))
        }),
        r is Err && !(r->Err_0 is Seal) ==> usage_counts(after) == usage_counts(before)
            && usage_slots(after) == usage_slots(before) && usage_batch(after) == usage_batch(before)
            && usage_sealed(after) == usage_sealed(before),
{
    if let (Ok(f), Ok(uploads)) = (fetched, r) {
        let floor = published(f)->Ok_0;
        let (chunks, timestamp) = choose|
            chunks: Seq<(Seq<u8>, Seq<u8>, u32, u32, Seq<u8>)>,
            timestamp: u64,
        | #[trigger] flushed(before, after, owner, key, floor, now, uploads@, chunks, timestamp);
    }
}

/// The words for each error of an opening or a flush say what it is about and give
/// its numbers or the words behind it.
pub proof fn usage_errors_say_why(text: String, index: u16, a: u64, b: u64)
    ensures
        usage_message(UsageError::Transport(text)) == "grpc transport error: "@ + text@,
        usage_message(UsageError::Decode(text)) == "usage chunk decode error: "@ + text@,
        usage_message(UsageError::Snapshot(text)) == text@,
        usage_message(UsageError::MissingLeaf { index }) == "published usage root commits to leaf "@
            + dec(index as nat) + " but the network reports it absent (snapshot corruption)"@,
        usage_message(UsageError::Stale { next: a, floor: b }) == "persist sequence "@ + dec(
            a as nat,
        ) + " does not exceed published floor "@ + dec(b as nat),
        usage_message(UsageError::Seal(SealFault::NotLater { timestamp: a, previous: b }))
            == "seal timestamp "@ + dec(a as nat) + " does not exceed previous seal timestamp "@
            + dec(b as nat),
        usage_message(UsageError::Seal(SealFault::Other(text))) == text@,
        usage_message(UsageError::Seal(SealFault::NotTheOwner))
            == "sealed chunk address does not match plan"@,
{
}

/// What a reply means: a chunk that is not there, and an empty one, are absence; a read
/// that failed is never taken for absence; and a single-owner chunk gives what follows
/// its id, signature and span.
pub proof fn only_a_definite_answer_is_absence(reply: FetchReply, r: Fetched)
    requires
        call_ensures(fetched, (reply,), r),
    ensures
        r matches Ok(None) <==> (reply is NotFound || (reply is Body && reply->Body_0@.len() == 0)),
        reply matches FetchReply::Failed(t) ==> (r matches Err(UsageError::Transport(text))
            && text@ == t@),
        reply matches FetchReply::Body(wire) ==> wire@.len() > 0 ==> is_single_owner(wire@) ==> (r
            matches Ok(Some(data)) && data@ == wire@.skip(105)),
        reply matches FetchReply::Body(wire) ==> wire@.len() > 0 ==> !is_single_owner(wire@) ==> (r
            matches Err(UsageError::Decode(text)) && text@ == single_owner_fault(wire@)),
{
}

/// The version that a flush must be above: none where the root is absent, the number in
/// bytes 40 to 47 of the root where there is one, and never one that could not be read.
pub proof fn floor_is_the_published_version(f: Fetched, r: Result<u64, UsageError>)
    requires
        call_ensures(published_floor, (f,), r),
    ensures
        f matches Ok(None) ==> r == Ok::<u64, UsageError>(0),
        f matches Err(e) ==> r == Err::<u64, UsageError>(e),
        f matches Ok(Some(root)) ==> root_fault(root@) is Some ==> r is Err,
        f matches Ok(Some(root)) ==> root_fault(root@) is None && root@.len() >= 48 ==> r == Ok::<
            u64,
            UsageError,
        >(
            (0x1_0000_0000 * (0x100_0000 * root@[40] + 0x1_0000 * root@[41] + 0x100 * root@[42]
                + root@[43]) + 0x100_0000 * root@[44] + 0x1_0000 * root@[45] + 0x100 * root@[46]
                + root@[47]) as u64,
        ),
{
    if let Ok(Some(root)) = f {
        if root@.len() >= 48 {
            crate::bytes::eight_bytes(root@.subrange(40, 48));
        }
    }
}

/// The time of a seal is the clock's, and always after the last seal.
pub proof fn seals_come_in_order(now: u64, previous: Option<u64>, t: u64)
    requires
        call_ensures(seal_timestamp, (now, previous), t),
    ensures
        previous is None ==> t == now,
        previous matches Some(p) ==> p < now ==> t == now,
        previous matches Some(p) ==> p >= now ==> t == p + 1,
{
}

/// An opening of a batch starts with its root, whose number is zero, and takes one step
/// with each payload. A flushed chunk is sent as it was sealed, as a single-owner chunk.
pub proof fn openings_go_step_by_step(
    batch: UsageBatch,
    start: Opening,
    first: Bytes32,
    o: &mut Opening,
    f: Fetched,
    a: OpenAction,
    sealed: SealedChunk,
    q: UploadRequest,
)
    requires
        call_ensures(Opening::new, (batch,), start),
        call_ensures(Opening::begin, (&start,), first),
        call_ensures(Opening::on_fetched, (o, f), a),
        call_ensures(upload_request, (sealed,), q),
    ensures
        start@.batch == batch,
        start@.stage == OpenStage::Root,
        first@ == keccak(
            keccak(
                vstd::utf8::encode_utf8("swarm-batch-usage"@) + batch.id@ + seq![0u8, 0u8],
            ) + batch.owner@,
        ),
        open_step(old(o)@, f, final(o)@, a),
        q.data@ == sealed.wire@,
        q.stamp@ == sealed.stamp@,
        q.address@ == sealed.address@,
        q.kind is SingleOwner,
        !q.validate,
{
    crate::bytes::two_bytes(seq![0u8, 0u8], 0);
}

/// A snapshot's usage is its version and its fullest bucket: no counter is above the peak,
/// and one stands at it. The root of a snapshot is asked for under its batch's number
/// zero.
pub proof fn usage_is_version_and_peak(
    s: nectar_postage_usage::Snapshot,
    owner: &Bytes20,
    u: Usage,
    root: Bytes32,
    flushable: bool,
    sealed: Option<u64>,
    b: int,
)
    requires
        call_ensures(usage_of, (&s,), u),
        call_ensures(root_address, (&s, owner), root),
        call_ensures(can_flush, (&s,), flushable),
        call_ensures(sealed_at, (&s,), sealed),
        0 <= b < usage_counts(s).len(),
    ensures
        u is Snapshot,
        u->sequence == usage_sequence(s),
        usage_counts(s)[b] <= u->peak,
        usage_counts(s).contains(u->peak),
        root@ == keccak(
            keccak(
                vstd::utf8::encode_utf8("swarm-batch-usage"@) + usage_batch(s) + seq![0u8, 0u8],
            ) + owner@,
        ),
        flushable <==> usage_geometry(s).1 > 0,
        sealed == usage_sealed(s),
{
    crate::bytes::two_bytes(seq![0u8, 0u8], 0);
}

/// A plan that was refused as stale, or for another reason, is refused with the same
/// numbers or words.
pub proof fn refused_plans_are_passed_on(fault: PlanFault, e: UsageError)
    requires
        call_ensures(not_planned, (fault,), e),
    ensures
        fault matches PlanFault::Stale { next, floor } ==> e == (UsageError::Stale { next, floor }),
        fault matches PlanFault::Other(text) ==> (e matches UsageError::Snapshot(t) && t@ == text@),
{
}

/// A root that was read is followed by its first leaf, where it names any, and else by the
/// snapshot that it holds alone, or by what is wrong with it; a root that could not be
/// read is the error, with its words.
pub proof fn roots_are_followed_by_their_leaves(
    o: &mut Opening,
    root: Vec<u8>,
    parsed: Result<(u64, u16), String>,
    a: OpenAction,
)
    requires
        call_ensures(Opening::on_root, (o, root, parsed), a),
    ensures
        final(o)@.batch == old(o)@.batch,
        parsed matches Err(text) ==> (a matches OpenAction::Fail(UsageError::Snapshot(t)) && t@
            == text@),
        parsed matches Ok((_, count)) ==> {
            &&& final(o)@.root == root@
            &&& final(o)@.count == count
            &&& final(o)@.leaves.len() == 0
            &&& count > 0 ==> (a matches OpenAction::Fetch(address) && address@ == keccak(
                keccak(
                    vstd::utf8::encode_utf8("swarm-batch-usage"@) + old(o)@.batch.id@ + seq![
                        0u8,
                        1u8,
                    ],
                ) + old(o)@.batch.owner@,
            ))
            &&& count == 0 ==> a is Done || (a matches OpenAction::Fail(e) && e is Snapshot)
            &&& count == 0 && a is Done ==> assembled(root@, Seq::empty()) == Ok::<
                Seq<u32>,
                Seq<char>,
            >(usage_counts(a->Done_0))
        },
{
    crate::bytes::two_bytes(seq![0u8, 1u8], 1);
}

/// What reading the published root gave decides on the floor: its version, or the error.
pub proof fn floors_follow_the_root(
    parsed: Result<(u64, u16), String>,
    r: Result<u64, UsageError>,
)
    requires
        call_ensures(floor_of, (parsed,), r),
    ensures
        parsed matches Ok((sequence, _)) ==> r == Ok::<u64, UsageError>(sequence),
        parsed matches Err(text) ==> (r matches Err(UsageError::Snapshot(t)) && t@ == text@),
{
}

/// An opening ends once: whatever comes after the snapshot or an error is out of step.
pub proof fn openings_end_once(v: OpenView, f: Fetched, w: OpenView, a: OpenAction)
    requires
        open_step(v, f, w, a),
    ensures
        w.batch == v.batch,
        a is Fetch <==> w.stage != OpenStage::Over,
        v.stage == OpenStage::Over ==> a == OpenAction::Fail(UsageError::OutOfStep),
{
}

/// Payloads are seen as they are, in order; the words for an error are its own.
pub proof fn payloads_are_seen_as_they_are(v: Seq<Vec<u8>>, e: UsageError, shown: String)
    requires
        call_ensures(UsageError::message, (&e,), shown),
    ensures
        payloads(v).len() == v.len(),
        forall|i: int| 0 <= i < v.len() ==> #[trigger] payloads(v)[i] == v[i]@,
        shown@ == usage_message(e),
{
}

} // verus!
