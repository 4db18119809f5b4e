//! Finding an account's batches: a scan of the logs that new batches left
//! behind, page by page, and then the live state of each batch found.

use vstd::prelude::*;

use crate::amount::{bzz_text, format_bzz, Amount};
use crate::bytes::{same_bytes, Bytes20, Bytes32};
use crate::chain::{
    created, created_topic, decode_created, is_nobody, logs_of, no_amount, nobody, BatchState,
    ChainAddrs, Log, LogView,
};
use crate::hashing::keccak;
use crate::hexes::{hex_0x, show_0x};
use crate::text::{dec, decimal, flush_left, lines_of, pad_right};

verus! {

/// The number of blocks in a page of logs.
pub const LOG_PAGE_BLOCKS: u64 = 50_000;

/// The last block of the page that starts at `from`.
pub open spec fn page_end(from: nat, head: nat) -> nat {
    if from + LOG_PAGE_BLOCKS - 1 <= head {
        (from + LOG_PAGE_BLOCKS - 1) as nat
    } else {
        head
    }
}

/// The pages from block `from` on, up to the head of the chain.
pub open spec fn pages(from: nat, head: nat) -> Seq<(nat, nat)>
    decreases head + 1 - from,
{
    if from <= head {
        seq![(from, page_end(from, head))] + pages(page_end(from, head) + 1, head)
    } else {
        Seq::empty()
    }
}

/// The pages cover the blocks from `from` to the head, each block once: the
/// first page starts at `from`, each page starts where the one before it
/// ended, the last ends at the head, and none is longer than the limit.
pub proof fn pages_cover_the_chain(from: nat, head: nat)
    requires
        from <= head,
    ensures
        pages(from, head).len() > 0,
        pages(from, head)[0].0 == from,
        pages(from, head).last().1 == head,
        forall|i: int|
            0 <= i < pages(from, head).len() ==> {
                &&& (#[trigger] pages(from, head)[i]).0 <= pages(from, head)[i].1
                &&& pages(from, head)[i].1 - pages(from, head)[i].0 < LOG_PAGE_BLOCKS
            },
        forall|i: int|
            0 < i < pages(from, head).len() ==> (#[trigger] pages(from, head)[i]).0 == pages(
                from,
                head,
            )[i - 1].1 + 1,
    decreases head + 1 - from,
{
    let end = page_end(from, head);
    let rest = pages(end + 1, head);
    let all = pages(from, head);
    assert(all =~= seq![(from, end)] + rest);
    if end + 1 <= head {
        pages_cover_the_chain(end + 1, head);
        assert(all.last() == rest.last());
        assert forall|i: int| 0 <= i < all.len() implies {
            &&& (#[trigger] all[i]).0 <= all[i].1
            &&& all[i].1 - all[i].0 < LOG_PAGE_BLOCKS
        } by {
            if i > 0 {
                assert(all[i] == rest[i - 1]);
            }
        }
        assert forall|i: int| 0 < i < all.len() implies (#[trigger] all[i]).0 == all[i - 1].1 + 1 by {
            assert(all[i] == rest[i - 1]);
            if i > 1 {
                assert(all[i - 1] == rest[i - 2]);
            }
        }
    } else {
        assert(rest =~= Seq::empty());
    }
}

/// The batches found so far, after the logs of another page: each batch of
/// `owner`, in the order of creation, and none twice.
pub open spec fn found(known: Seq<Seq<u8>>, logs: Seq<LogView>, owner: Seq<u8>) -> Seq<Seq<u8>>
    decreases logs.len(),
{
    if logs.len() == 0 {
        known
    } else {
        let before = found(known, logs.drop_last(), owner);
        match created(logs.last()) {
            Some((id, o)) => if o == owner && !before.contains(id) {
                before.push(id)
            } else {
                before
            },
            None => before,
        }
    }
}

/// A scan finds each of the owner's batches once: the list has no duplicates,
/// keeps what was known in its place, and holds a batch if and only if it was
/// known or one of the logs tells of it with that owner.
pub proof fn scan_finds_each_batch_once(
    known: Seq<Seq<u8>>,
    logs: Seq<LogView>,
    owner: Seq<u8>,
    id: Seq<u8>,
)
    requires
        known.no_duplicates(),
    ensures
        found(known, logs, owner).no_duplicates(),
        known.len() <= found(known, logs, owner).len(),
        found(known, logs, owner).take(known.len() as int) == known,
        found(known, logs, owner).contains(id) <==> known.contains(id) || exists|i: int|
            0 <= i < logs.len() && #[trigger] created(logs[i]) == Some((id, owner)),
    decreases logs.len(),
{
    let all = found(known, logs, owner);
    if logs.len() == 0 {
        assert(all.take(known.len() as int) =~= known);
    } else {
        let front = logs.drop_last();
        let before = found(known, front, owner);
        scan_finds_each_batch_once(known, front, owner, id);
        assert(all.take(known.len() as int) =~= before.take(known.len() as int));
        let last = created(logs.last());
        assert(logs.last() == logs[logs.len() - 1]);
        if exists|i: int| 0 <= i < logs.len() && #[trigger] created(logs[i]) == Some((id, owner)) {
            let i = choose|i: int|
                0 <= i < logs.len() && #[trigger] created(logs[i]) == Some((id, owner));
            if i < logs.len() - 1 {
                assert(front[i] == logs[i]);
                assert(before.contains(id));
            }
        }
        if exists|i: int| 0 <= i < front.len() && #[trigger] created(front[i]) == Some((id, owner)) {
            let i = choose|i: int|
                0 <= i < front.len() && #[trigger] created(front[i]) == Some((id, owner));
            assert(logs[i] == front[i]);
        }
        match last {
            Some((made, o)) => {
                if o == owner && !before.contains(made) {
                    assert(all == before.push(made));
                    assert(all[before.len() as int] == made);
                    if before.contains(id) {
                        let j = choose|j: int| 0 <= j < before.len() && before[j] == id;
                        assert(all[j] == id);
                    }
                }
            },
            None => {},
        }
    }
}

/// A batch that was found, with its live state.
#[derive(Clone, Copy, Debug, PartialEq, Eq)]
pub struct DiscoveredBatch {
    pub batch_id: Bytes32,
    /// Its current owner.
    pub owner: Bytes20,
    /// Its current depth.
    pub depth: u8,
    pub bucket_depth: u8,
    pub immutable: bool,
    /// Its remaining balance per chunk.
    pub remaining_per_chunk: Amount,
    /// Whether it still exists.
    pub live: bool,
}

/// The live state of a batch: it lives if it has an owner; one that does not
/// has no balance, and counts as the owner's who was asked about.
pub open spec fn reconciled(
    id: Seq<u8>,
    state: BatchState,
    remaining: nat,
    owner: Seq<u8>,
    b: DiscoveredBatch,
) -> bool {
    &&& b.batch_id@ == id
    &&& b.live == !is_nobody(state.owner@)
    &&& b.owner@ == (if b.live {
        state.owner@
    } else {
        owner
    })
    &&& b.depth == state.depth
    &&& b.bucket_depth == state.bucket_depth
    &&& b.immutable == state.immutable
    &&& b.remaining_per_chunk@ == (if b.live {
        remaining
    } else {
        0
    })
}

/// Where a discovery stands.
#[derive(Clone, Copy, Debug, PartialEq, Eq, Structural)]
pub enum ScanStage {
    /// It waits for the head of the chain.
    Head,
    /// It waits for a page of logs.
    Logs,
    /// It waits for a batch's state.
    State,
    /// It waits for a batch's remaining balance.
    Remaining,
    /// It is over.
    Over,
}

/// What a discovery does next.
#[derive(Clone, Copy, Debug, PartialEq, Eq)]
pub enum ScanAction {
    /// Read the number of the newest block.
    ReadHead,
    /// Read the logs of a contract with a first topic, in a range of blocks.
    ReadLogs { contract: Bytes20, topic: Bytes32, from: u64, to: u64 },
    /// Read a batch's state.
    ReadBatch { contract: Bytes20, batch_id: Bytes32 },
    /// Read a batch's remaining balance per chunk.
    ReadRemaining { contract: Bytes20, batch_id: Bytes32 },
    /// End.
    Done,
    /// A reply came that was not asked for.
    OutOfStep,
}

/// What the chain replies.
pub enum ScanReply {
    Head(u64),
    Logs(Vec<Log>),
    State(BatchState),
    Remaining(Amount),
}

/// A discovery of an account's batches.
pub struct Discovery {
    addrs: ChainAddrs,
    owner: Bytes20,
    stage: ScanStage,
    head: u64,
    from: u64,
    ordered: Vec<Bytes32>,
    state: BatchState,
    batches: Vec<DiscoveredBatch>,
}

/// A discovery, as contracts see it.
pub struct ScanView {
    pub addrs: ChainAddrs,
    pub owner: Seq<u8>,
    pub stage: ScanStage,
    /// The newest block.
    pub head: u64,
    /// The block where the next page starts.
    pub from: u64,
    /// The batches found, in the order of creation.
    pub ordered: Seq<Seq<u8>>,
    /// The state of the batch in hand.
    pub state: BatchState,
    /// The batches whose live state is known.
    pub batches: Seq<DiscoveredBatch>,
}

/// The views of a list of batch ids.
pub open spec fn ids_of(v: Seq<Bytes32>) -> Seq<Seq<u8>> {
    v.map_values(|id: Bytes32| id@)
}

impl View for Discovery {
    type V = ScanView;

    closed spec fn view(&self) -> ScanView {
        ScanView {
            addrs: self.addrs,
            owner: self.owner@,
            stage: self.stage,
            head: self.head,
            from: self.from,
            ordered: ids_of(self.ordered@),
            state: self.state,
            batches: self.batches@,
        }
    }
}

/// The next page, or the first batch, once pages are through.
pub open spec fn next_page(v: ScanView, w: ScanView, a: ScanAction) -> bool {
    if v.from <= v.head {
        &&& w == (ScanView { stage: ScanStage::Logs, ..v })
        &&& match a {
            ScanAction::ReadLogs { contract, topic, from, to } => contract == v.addrs.postage
                && topic@ == keccak(crate::chain::created_event()) && from == v.from && to
                == page_end(v.from as nat, v.head as nat),
            _ => false,
        }
    } else {
        next_batch(v, w, a)
    }
}

/// The next batch to be looked up, or the end.
pub open spec fn next_batch(v: ScanView, w: ScanView, a: ScanAction) -> bool {
    if v.batches.len() < v.ordered.len() {
        &&& w == (ScanView { stage: ScanStage::State, ..v })
        &&& match a {
            ScanAction::ReadBatch { contract, batch_id } => contract == v.addrs.postage
                && batch_id@ == v.ordered[v.batches.len() as int],
            _ => false,
        }
    } else {
        w == (ScanView { stage: ScanStage::Over, ..v }) && a == ScanAction::Done
    }
}

/// A step of a discovery: from `v`, on the reply `r`, to `w`, with `a` to be
/// done.
pub open spec fn scan_step(v: ScanView, r: ScanReply, w: ScanView, a: ScanAction) -> bool {
    match (v.stage, r) {
        (ScanStage::Head, ScanReply::Head(head)) => next_page(
            ScanView { head, from: v.addrs.postage_deploy_block, ..v },
            w,
            a,
        ),
        (ScanStage::Logs, ScanReply::Logs(logs)) => next_page(
            ScanView {
                from: (page_end(v.from as nat, v.head as nat) + 1) as u64,
                ordered: found(v.ordered, logs_of(logs@), v.owner),
                ..v
            },
            w,
            a,
        ),
        (ScanStage::State, ScanReply::State(state)) => if is_nobody(state.owner@) {
            exists|b: DiscoveredBatch|
                reconciled(v.ordered[v.batches.len() as int], state, 0, v.owner, b) && next_batch(
                    ScanView { state, batches: #[trigger] v.batches.push(b), ..v },
                    w,
                    a,
                )
        } else {
            &&& w == (ScanView { stage: ScanStage::Remaining, state, ..v })
            &&& match a {
                ScanAction::ReadRemaining { contract, batch_id } => contract == v.addrs.postage
                    && batch_id@ == v.ordered[v.batches.len() as int],
                _ => false,
            }
        },
        (ScanStage::Remaining, ScanReply::Remaining(remaining)) => exists|b: DiscoveredBatch|
            reconciled(v.ordered[v.batches.len() as int], v.state, remaining@, v.owner, b)
                && next_batch(ScanView { batches: #[trigger] v.batches.push(b), ..v }, w, a),
        _ => w == (ScanView { stage: ScanStage::Over, ..v }) && a == ScanAction::OutOfStep,
    }
}

/// What holds of a discovery at any time: no batch was found twice; while
/// pages are read, the page at hand starts at or before the head; and a batch
/// is looked up only while there are batches to look up.
pub open spec fn scan_holds(v: ScanView) -> bool {
    &&& v.head <= u64::MAX - LOG_PAGE_BLOCKS
    &&& v.ordered.no_duplicates()
    &&& v.batches.len() <= v.ordered.len()
    &&& v.stage == ScanStage::Head ==> v.ordered.len() == 0
    &&& v.stage == ScanStage::Logs ==> v.from <= v.head && v.batches.len() == 0
    &&& v.stage == ScanStage::State || v.stage == ScanStage::Remaining ==> v.batches.len()
        < v.ordered.len()
    &&& v.stage == ScanStage::Remaining ==> !is_nobody(v.state.owner@)
    &&& forall|i: int|
        0 <= i < v.batches.len() ==> (#[trigger] v.batches[i]).batch_id@ == v.ordered[i]
}

fn knows(ids: &Vec<Bytes32>, id: &Bytes32) -> (r: bool)
    ensures
        r == ids_of(ids@).contains(id@),
{
    let mut i: usize = 0;
    let ghost all = ids_of(ids@);
    while i < ids.len()
        invariant
            i <= ids.len(),
            all == ids_of(ids@),
            forall|j: int| 0 <= j < i ==> all[j] != id@,
        decreases ids.len() - i,
    {
        assert(all[i as int] == ids@[i as int]@);
        if same_bytes(ids[i].bytes.as_slice(), id.bytes.as_slice()) {
            return true;
        }
        i = i + 1;
    }
    false
}

impl Discovery {
    /// The invariant.
    pub open spec fn wf(self) -> bool {
        scan_holds(self@)
    }

    /// A discovery of the batches of `owner`. It first reads the head of the
    /// chain.
    pub fn new(addrs: ChainAddrs, owner: Bytes20) -> (d: Discovery)
        ensures
            d.wf(),
            d@.addrs == addrs,
            d@.owner == owner@,
            d@.stage == ScanStage::Head,
            d@.ordered == Seq::<Seq<u8>>::empty(),
            d@.batches == Seq::<DiscoveredBatch>::empty(),
    {
        let d = Discovery {
            addrs,
            owner,
            stage: ScanStage::Head,
            head: 0,
            from: 0,
            ordered: Vec::new(),
            state: BatchState {
                owner,
                depth: 0,
                bucket_depth: 0,
                immutable: false,
                last_updated_block: no_amount(),
            },
            batches: Vec::new(),
        };
        assert(d@.ordered =~= Seq::empty());
        d
    }

    /// The first thing that a discovery does.
    pub fn begin(&self) -> (a: ScanAction)
        ensures
            a == ScanAction::ReadHead,
    {
        ScanAction::ReadHead
    }

    fn go_to_batch(&mut self) -> (a: ScanAction)
        requires
            old(self).wf(),
        ensures
            final(self).wf(),
            next_batch(old(self)@, final(self)@, a),
    {
        assert(ids_of(self.ordered@).len() == self.ordered@.len());
        if self.batches.len() < self.ordered.len() {
            self.stage = ScanStage::State;
            let i: usize = self.batches.len();
            assert(ids_of(self.ordered@)[i as int] == self.ordered@[i as int]@);
            ScanAction::ReadBatch { contract: self.addrs.postage, batch_id: self.ordered[i] }
        } else {
            self.stage = ScanStage::Over;
            ScanAction::Done
        }
    }

    fn go_to_page(&mut self) -> (a: ScanAction)
        requires
            old(self).wf(),
            old(self)@.batches.len() == 0,
        ensures
            final(self).wf(),
            next_page(old(self)@, final(self)@, a),
    {
        if self.from <= self.head {
            self.stage = ScanStage::Logs;
            let last: u64 = self.from + LOG_PAGE_BLOCKS - 1;
            let to: u64 = if last <= self.head {
                last
            } else {
                self.head
            };
            ScanAction::ReadLogs {
                contract: self.addrs.postage,
                topic: created_topic(),
                from: self.from,
                to,
            }
        } else {
            self.go_to_batch()
        }
    }

    fn take_logs(&mut self, logs: &Vec<Log>)
        requires
            old(self)@.ordered.no_duplicates(),
        ensures
            final(self)@ == (ScanView {
                ordered: found(old(self)@.ordered, logs_of(logs@), old(self)@.owner),
                ..old(self)@
            }),
            final(self)@.ordered.no_duplicates(),
    {
        let ghost known = self@.ordered;
        let ghost all = logs_of(logs@);
        let mut i: usize = 0;
        assert(all.take(0) =~= Seq::empty());
        while i < logs.len()
            invariant
                i <= logs.len(),
                all == logs_of(logs@),
                known == old(self)@.ordered,
                self@ == (ScanView {
                    ordered: found(known, all.take(i as int), old(self)@.owner),
                    ..old(self)@
                }),
            decreases logs.len() - i,
        {
            proof {
                assert(all.take(i + 1).drop_last() =~= all.take(i as int));
                assert(all.take(i + 1).last() == logs@[i as int]@);
            }
            match decode_created(&logs[i]) {
                Some((id, owner)) => {
                    let ours = same_bytes(owner.bytes.as_slice(), self.owner.bytes.as_slice());
                    if ours && !knows(&self.ordered, &id) {
                        let ghost before = self.ordered@;
                        self.ordered.push(id);
                        assert(ids_of(self.ordered@) =~= ids_of(before).push(id@));
                    }
                },
                None => {},
            }
            i = i + 1;
        }
        proof {
            assert(all.take(i as int) =~= all);
            scan_finds_each_batch_once(known, all, old(self)@.owner, Seq::empty());
        }
    }

    fn settle(&mut self, state: BatchState, remaining: Amount) -> (a: ScanAction)
        requires
            old(self).wf(),
            old(self)@.batches.len() < old(self)@.ordered.len(),
            is_nobody(state.owner@) ==> remaining@ == 0,
        ensures
            final(self).wf(),
            exists|b: DiscoveredBatch|
                reconciled(
                    old(self)@.ordered[old(self)@.batches.len() as int],
                    state,
                    remaining@,
                    old(self)@.owner,
                    b,
                ) && next_batch(
                    ScanView { state, batches: #[trigger] old(self)@.batches.push(b), ..old(self)@ },
                    final(self)@,
                    a,
                ),
    {
        assert(ids_of(self.ordered@).len() == self.ordered@.len());
        let i: usize = self.batches.len();
        assert(ids_of(self.ordered@)[i as int] == self.ordered@[i as int]@);
        let live = !nobody(&state.owner);
        let b = DiscoveredBatch {
            batch_id: self.ordered[i],
            owner: if live {
                state.owner
            } else {
                self.owner
            },
            depth: state.depth,
            bucket_depth: state.bucket_depth,
            immutable: state.immutable,
            remaining_per_chunk: remaining,
            live,
        };
        self.batches.push(b);
        self.state = state;
        self.stage = ScanStage::Over;
        let ghost middle = ScanView { state, batches: old(self)@.batches.push(b), ..old(self)@ };
        assert(self@ == (ScanView { stage: ScanStage::Over, ..middle }));
        let a = self.go_to_batch();
        assert(next_batch(middle, self@, a));
        a
    }

    /// Takes the chain's reply and says what to do next. A head so high that a
    /// page would pass the largest block number is not taken.
    pub fn on_reply(&mut self, reply: ScanReply) -> (a: ScanAction)
        requires
            old(self).wf(),
            reply matches ScanReply::Head(head) ==> head <= u64::MAX - LOG_PAGE_BLOCKS,
        ensures
            final(self).wf(),
            scan_step(old(self)@, reply, final(self)@, a),
            a == ScanAction::Done ==> final(self)@.batches.len() == final(self)@.ordered.len(),
    {
        let stage = self.stage;
        match (stage, reply) {
            (ScanStage::Head, ScanReply::Head(head)) => {
                self.head = head;
                self.from = self.addrs.postage_deploy_block;
                self.go_to_page()
            },
            (ScanStage::Logs, ScanReply::Logs(logs)) => {
                let last: u64 = self.from + LOG_PAGE_BLOCKS - 1;
                let to: u64 = if last <= self.head {
                    last
                } else {
                    self.head
                };
                self.take_logs(&logs);
                self.from = to + 1;
                self.stage = ScanStage::Over;
                self.go_to_page()
            },
            (ScanStage::State, ScanReply::State(state)) => {
                if nobody(&state.owner) {
                    self.settle(state, no_amount())
                } else {
                    assert(ids_of(self.ordered@).len() == self.ordered@.len());
                    let i: usize = self.batches.len();
                    assert(ids_of(self.ordered@)[i as int] == self.ordered@[i as int]@);
                    self.state = state;
                    self.stage = ScanStage::Remaining;
                    ScanAction::ReadRemaining {
                        contract: self.addrs.postage,
                        batch_id: self.ordered[i],
                    }
                }
            },
            (ScanStage::Remaining, ScanReply::Remaining(remaining)) => {
                let state = self.state;
                self.settle(state, remaining)
            },
            _ => {
                self.stage = ScanStage::Over;
                ScanAction::OutOfStep
            },
        }
    }

    /// The batches, once the discovery is over.
    pub fn finish(self) -> (v: Vec<DiscoveredBatch>)
        ensures
            v@ == self@.batches,
    {
        self.batches
    }
}

/// How far a batch has been used, as its published snapshot says.
#[derive(Clone, Copy, Debug, PartialEq, Eq, Structural)]
pub enum Usage {
    /// The snapshot's sequence and its fullest bucket.
    Snapshot { sequence: u64, peak: u32 },
    /// There is none that could be read.
    Unknown,
}

/// What is reported of a batch's usage: nothing where the node cannot be reached;
/// otherwise what its opened snapshot says, or that there is none, where it
/// could not be opened.
pub fn reported_usage(reachable: bool, opened: Option<Usage>) -> (u: Option<Usage>)
    ensures
        u == (if !reachable {
            None
        } else {
            Some(
                match opened {
                    Some(x) => x,
                    None => Usage::Unknown,
                },
            )
        }),
{
    if !reachable {
        return None;
    }
    match opened {
        Some(x) => Some(x),
        None => Some(Usage::Unknown),
    }
}

/// The line for a batch.
pub open spec fn batch_line(b: DiscoveredBatch) -> Seq<char> {
    "  "@ + hex_0x(b.batch_id@) + "  depth "@ + flush_left(dec(b.depth as nat), 3) + " bucket "@
        + flush_left(dec(b.bucket_depth as nat), 3) + " "@ + flush_left(
        if b.immutable {
            "immutable"@
        } else {
            "mutable"@
        },
        9,
    ) + " "@ + flush_left(
        if b.live {
            "live"@
        } else {
            "expired"@
        },
        7,
    ) + " remaining/chunk "@ + bzz_text(b.remaining_per_chunk@) + " BZZ"@
}

/// The line for a batch's usage.
pub open spec fn usage_line(u: Usage) -> Seq<char> {
    match u {
        Usage::Snapshot { sequence, peak } => "      usage: sequence "@ + dec(sequence as nat)
            + ", peak bucket fill "@ + dec(peak as nat),
        Usage::Unknown => "      usage: (no published snapshot)"@,
    }
}

/// The line above a list of batches, or the one in its place.
pub open spec fn list_header(owner: Seq<u8>, count: nat) -> Seq<char> {
    if count == 0 {
        "No batches found for owner "@ + hex_0x(owner)
    } else {
        "Batches owned by "@ + hex_0x(owner) + ":"@
    }
}

/// Shows the line above a list of batches.
pub fn list_header_text(owner: &Bytes20, count: usize) -> (s: String)
    ensures
        s@ == list_header(owner@, count as nat),
{
    if count == 0 {
        let mut s = String::from_str("No batches found for owner ");
        s.append(show_0x(owner.bytes.as_slice()).as_str());
        s
    } else {
        let mut s = String::from_str("Batches owned by ");
        s.append(show_0x(owner.bytes.as_slice()).as_str());
        s.append(":");
        s
    }
}

/// Shows a batch, and under it its usage, where the node could be asked.
pub fn batch_report(b: &DiscoveredBatch, usage: Option<Usage>) -> (lines: Vec<String>)
    ensures
        lines_of(lines@) == (match usage {
            Some(u) => seq![batch_line(*b), usage_line(u)],
            None => seq![batch_line(*b)],
        }),
{
    let mut s = String::from_str("  ");
    s.append(show_0x(b.batch_id.bytes.as_slice()).as_str());
    s.append("  depth ");
    s.append(pad_right(decimal(b.depth as u64).as_str(), 3).as_str());
    s.append(" bucket ");
    s.append(pad_right(decimal(b.bucket_depth as u64).as_str(), 3).as_str());
    s.append(" ");
    s.append(
        pad_right(
            if b.immutable {
                "immutable"
            } else {
                "mutable"
            },
            9,
        ).as_str(),
    );
    s.append(" ");
    s.append(
        pad_right(
            if b.live {
                "live"
            } else {
                "expired"
            },
            7,
        ).as_str(),
    );
    s.append(" remaining/chunk ");
    s.append(format_bzz(&b.remaining_per_chunk).as_str());
    s.append(" BZZ");
    assert(s@ =~= batch_line(*b));
    let mut lines: Vec<String> = Vec::new();
    lines.push(s);
    assert(lines_of(lines@) =~= seq![batch_line(*b)]);
    match usage {
        Some(Usage::Snapshot { sequence, peak }) => {
            let mut u = String::from_str("      usage: sequence ");
            u.append(decimal(sequence).as_str());
            u.append(", peak bucket fill ");
            u.append(decimal(peak as u64).as_str());
            lines.push(u);
            assert(lines_of(lines@) =~= seq![batch_line(*b), usage_line(usage->0)]);
        },
        Some(Usage::Unknown) => {
            lines.push(String::from_str("      usage: (no published snapshot)"));
            assert(lines_of(lines@) =~= seq![batch_line(*b), usage_line(usage->0)]);
        },
        None => {},
    }
    lines
}

/// A run of a discovery: from one state to the next, each by a reply and an
/// action.
pub open spec fn scan_run(
    views: Seq<ScanView>,
    replies: Seq<ScanReply>,
    actions: Seq<ScanAction>,
) -> bool {
    &&& views.len() == replies.len() + 1
    &&& actions.len() == replies.len()
    &&& views[0].stage == ScanStage::Head
    &&& forall|k: int|
        #![trigger actions[k]]
        0 <= k < actions.len() ==> scan_step(views[k], replies[k], views[k + 1], actions[k])
}

/// The logs in the replies up to `k`, one page after another.
pub open spec fn logs_until(replies: Seq<ScanReply>, k: nat) -> Seq<LogView>
    decreases k,
{
    if k == 0 {
        Seq::empty()
    } else {
        match replies[k as int] {
            ScanReply::Logs(logs) => logs_until(replies, (k - 1) as nat) + logs_of(logs@),
            _ => logs_until(replies, (k - 1) as nat),
        }
    }
}

proof fn lemma_found_in_pages(
    known: Seq<Seq<u8>>,
    first: Seq<LogView>,
    second: Seq<LogView>,
    owner: Seq<u8>,
)
    ensures
        found(found(known, first, owner), second, owner) == found(known, first + second, owner),
    decreases second.len(),
{
    if second.len() == 0 {
        assert(first + second =~= first);
    } else {
        assert((first + second).drop_last() =~= first + second.drop_last());
        assert((first + second).last() == second.last());
        lemma_found_in_pages(known, first, second.drop_last(), owner);
    }
}

proof fn lemma_pages_unfold(from: nat, head: nat, k: nat, at: nat)
    requires
        from <= head,
        k < pages(from, head).len(),
        pages(from, head).skip(k as int) == pages(at, head),
    ensures
        at <= head,
        pages(from, head)[k as int] == (at, page_end(at, head)),
        pages(from, head).skip(k as int + 1) == pages(page_end(at, head) + 1, head),
{
    let all = pages(from, head);
    let rest = all.skip(k as int);
    assert(rest.len() > 0);
    assert(rest[0] == all[k as int]);
    assert(all.skip(k as int + 1) =~= rest.skip(1));
    assert(rest == seq![(at, page_end(at, head))] + pages(page_end(at, head) + 1, head));
    assert(rest.skip(1) =~= pages(page_end(at, head) + 1, head));
}

/// A discovery reads the whole chain: its reads of logs are the pages from the
/// contract's deployment to the head, one after another, and the batches found
/// after a page are those that the logs so far tell of.
pub proof fn scan_reads_every_page(
    views: Seq<ScanView>,
    replies: Seq<ScanReply>,
    actions: Seq<ScanAction>,
    head: u64,
    k: int,
)
    requires
        scan_run(views, replies, actions),
        0 <= k < actions.len(),
        replies[0] == ScanReply::Head(head),
        forall|j: int| 0 < j <= k ==> #[trigger] replies[j] is Logs,
        views[0].addrs.postage_deploy_block <= head < u64::MAX,
        views[0].ordered == Seq::<Seq<u8>>::empty(),
        views[0].batches.len() == 0,
        k <= pages(views[0].addrs.postage_deploy_block as nat, head as nat).len(),
    ensures
        ({
            let all = pages(views[0].addrs.postage_deploy_block as nat, head as nat);
            let after = views[k + 1];
            &&& after.ordered == found(
                Seq::empty(),
                logs_until(replies, k as nat),
                views[0].owner,
            )
            &&& k < all.len() ==> match actions[k] {
                ScanAction::ReadLogs { from, to, .. } => (from as nat, to as nat) == all[k],
                _ => false,
            }
            &&& k == all.len() ==> !(actions[k] is ReadLogs)
        }),
{
    lemma_scan_position(views, replies, actions, head, k);
}

proof fn lemma_scan_position(
    views: Seq<ScanView>,
    replies: Seq<ScanReply>,
    actions: Seq<ScanAction>,
    head: u64,
    k: int,
)
    requires
        scan_run(views, replies, actions),
        0 <= k < actions.len(),
        replies[0] == ScanReply::Head(head),
        forall|j: int| 0 < j <= k ==> #[trigger] replies[j] is Logs,
        views[0].addrs.postage_deploy_block <= head < u64::MAX,
        views[0].ordered == Seq::<Seq<u8>>::empty(),
        views[0].batches.len() == 0,
        k <= pages(views[0].addrs.postage_deploy_block as nat, head as nat).len(),
    ensures
        ({
            let start = views[0].addrs.postage_deploy_block as nat;
            let all = pages(start, head as nat);
            let after = views[k + 1];
            &&& after.addrs == views[0].addrs
            &&& after.owner == views[0].owner
            &&& after.head == head
            &&& after.batches.len() == 0
            &&& after.ordered == found(
                Seq::empty(),
                logs_until(replies, k as nat),
                views[0].owner,
            )
            &&& all.skip(k) == pages(after.from as nat, head as nat)
            &&& k < all.len() ==> after.stage == ScanStage::Logs && after.from <= head
                && match actions[k] {
                ScanAction::ReadLogs { from, to, .. } => (from as nat, to as nat) == all[k],
                _ => false,
            }
            &&& k == all.len() ==> !(actions[k] is ReadLogs)
        }),
    decreases k,
{
    let start = views[0].addrs.postage_deploy_block as nat;
    let all = pages(start, head as nat);
    assert(scan_step(views[k], replies[k], views[k + 1], actions[k]));
    pages_cover_the_chain(start, head as nat);
    if k == 0 {
        assert(all.skip(0) =~= all);
        lemma_pages_unfold(start, head as nat, 0, start);
    } else {
        lemma_scan_position(views, replies, actions, head, k - 1);
        let v = views[k];
        lemma_pages_unfold(start, head as nat, (k - 1) as nat, v.from as nat);
        assert(replies[k] is Logs);
        let logs = logs_of(replies[k]->Logs_0@);
        lemma_found_in_pages(
            Seq::empty(),
            logs_until(replies, (k - 1) as nat),
            logs,
            views[0].owner,
        );
        let next = views[k + 1].from as nat;
        assert(next == page_end(v.from as nat, head as nat) + 1);
        assert(all.skip(k) == pages(next, head as nat));
        if k < all.len() {
            lemma_pages_unfold(start, head as nat, k as nat, next);
        } else {
            assert(all.skip(k).len() == 0);
            assert(next > head);
        }
    }
}

/// Logs are taken one after another: those of two pages, one page at a time or both
/// at once, give the same batches. The event of a new batch adds the batch at the
/// end where its owner is the account and it is not known yet, whatever stands in
/// the event's other fields; any other log adds nothing.
pub proof fn logs_are_taken_one_by_one(
    known: Seq<Seq<u8>>,
    first: Seq<LogView>,
    second: Seq<LogView>,
    log: LogView,
    owner: Seq<u8>,
)
    ensures
        found(known, Seq::empty(), owner) == known,
        found(known, first + second, owner) == found(found(known, first, owner), second, owner),
        log.topics.len() == 2 && log.topics[0] == keccak(
            vstd::utf8::encode_utf8(
                "BatchCreated(bytes32,uint256,uint256,address,uint8,uint8,bool)"@,
            ),
        ) && log.data.len() >= 192 && log.data.subrange(76, 96) == owner && !known.contains(
            log.topics[1],
        ) ==> found(known, seq![log], owner) == known.push(log.topics[1]),
        log.topics.len() != 2 || log.topics[0] != keccak(
            vstd::utf8::encode_utf8(
                "BatchCreated(bytes32,uint256,uint256,address,uint8,uint8,bool)"@,
            ),
        ) || log.data.len() < 192 || log.data.subrange(76, 96) != owner || known.contains(
            log.topics[1],
        ) ==> found(known, seq![log], owner) == known,
{
    lemma_found_in_pages(known, first, second, owner);
    reveal_with_fuel(found, 2);
    assert(seq![log].drop_last() =~= Seq::<LogView>::empty());
}

/// Every page but the last is full: it has 50,000 blocks.
pub proof fn pages_are_full(from: nat, head: nat, i: int)
    requires
        from <= head,
        0 <= i < pages(from, head).len(),
    ensures
        pages(from, head)[i].0 == from + 50_000 * i,
        i < pages(from, head).len() - 1 ==> pages(from, head)[i].1 == from + 50_000 * i + 49_999,
        i == pages(from, head).len() - 1 ==> pages(from, head)[i].1 == head,
        pages(from, head).len() == (head - from) / 50_000 + 1,
    decreases head + 1 - from,
{
    let end = page_end(from, head);
    let rest = pages(end + 1, head);
    let all = pages(from, head);
    assert(all =~= seq![(from, end)] + rest);
    if end + 1 <= head {
        assert(rest.len() > 0) by {
            pages_cover_the_chain(end + 1, head);
        }
        if i > 0 {
            pages_are_full(end + 1, head, i - 1);
            assert(all[i] == rest[i - 1]);
        } else {
            pages_are_full(end + 1, head, 0);
        }
    } else {
        assert(rest.len() == 0);
    }
}

proof fn lemma_same_account(
    views: Seq<ScanView>,
    replies: Seq<ScanReply>,
    actions: Seq<ScanAction>,
    k: int,
)
    requires
        scan_run(views, replies, actions),
        0 <= k < views.len(),
    ensures
        views[k].addrs == views[0].addrs,
        views[k].owner == views[0].owner,
    decreases k,
{
    if k > 0 {
        lemma_same_account(views, replies, actions, k - 1);
        assert(scan_step(views[k - 1], replies[k - 1], views[k], actions[k - 1]));
    }
}

/// A discovery asks nobody but the postage contract: for the logs of the event of a
/// new batch, and for batches that were found. Each batch is asked for once, in the
/// order of creation, and the end comes when there is none left.
pub proof fn scan_asks_the_postage_contract(
    views: Seq<ScanView>,
    replies: Seq<ScanReply>,
    actions: Seq<ScanAction>,
    k: int,
)
    requires
        scan_run(views, replies, actions),
        0 <= k < actions.len(),
    ensures
        match actions[k] {
            ScanAction::ReadHead => false,
            ScanAction::ReadLogs { contract, topic, from, to } => {
                &&& contract == views[0].addrs.postage
                &&& topic@ == keccak(
                    vstd::utf8::encode_utf8(
                        "BatchCreated(bytes32,uint256,uint256,address,uint8,uint8,bool)"@,
                    ),
                )
                &&& from <= to
                &&& to - from < 50_000
            },
            ScanAction::ReadBatch { contract, batch_id } => {
                &&& contract == views[0].addrs.postage
                &&& views[k + 1].batches.len() < views[k + 1].ordered.len()
                &&& batch_id@ == views[k + 1].ordered[views[k + 1].batches.len() as int]
            },
            ScanAction::ReadRemaining { contract, batch_id } => {
                &&& contract == views[0].addrs.postage
                &&& batch_id@ == views[k + 1].ordered[views[k + 1].batches.len() as int]
            },
            ScanAction::Done => views[k + 1].batches.len() >= views[k + 1].ordered.len(),
            ScanAction::OutOfStep => true,
        },
{
    lemma_same_account(views, replies, actions, k);
    assert(scan_step(views[k], replies[k], views[k + 1], actions[k]));
}

/// A batch is reported as the chain has it: where it was asked for and its state has
/// an owner, its balance is asked for next, and then it is in the list, behind those
/// before it, with the state's owner, depth, bucket depth and immutability and with
/// that balance, as one that lives.
pub proof fn live_batch_is_reported(
    views: Seq<ScanView>,
    replies: Seq<ScanReply>,
    actions: Seq<ScanAction>,
    state: BatchState,
    remaining: Amount,
    k: int,
)
    requires
        scan_run(views, replies, actions),
        0 < k < actions.len() - 1,
        actions[k - 1] is ReadBatch,
        replies[k] == ScanReply::State(state),
        replies[k + 1] == ScanReply::Remaining(remaining),
        exists|i: int| 0 <= i < 20 && #[trigger] state.owner@[i] != 0,
    ensures
        actions[k] is ReadRemaining,
        actions[k]->ReadRemaining_batch_id@ == actions[k - 1]->ReadBatch_batch_id@,
        views[k + 2].ordered == views[k].ordered,
        views[k + 2].batches.len() == views[k].batches.len() + 1,
        views[k + 2].batches.drop_last() == views[k].batches,
        ({
            let b = views[k + 2].batches.last();
            &&& b.batch_id@ == actions[k - 1]->ReadBatch_batch_id@
            &&& b.live
            &&& b.owner@ == state.owner@
            &&& b.depth == state.depth
            &&& b.bucket_depth == state.bucket_depth
            &&& b.immutable == state.immutable
            &&& b.remaining_per_chunk@ == remaining@
        }),
        actions[k + 1] is ReadBatch || actions[k + 1] is Done,
{
    assert(scan_step(views[k - 1], replies[k - 1], views[k], actions[k - 1]));
    assert(scan_step(views[k], replies[k], views[k + 1], actions[k]));
    assert(scan_step(views[k + 1], replies[k + 1], views[k + 2], actions[k + 1]));
    let i = choose|i: int| 0 <= i < 20 && #[trigger] state.owner@[i] != 0;
    assert(!is_nobody(state.owner@)) by {
        if is_nobody(state.owner@) {
            assert(crate::bytes::zeros(20)[i] == 0);
        }
    }
    assert(views[k].stage == ScanStage::State);
    let v = views[k + 1];
    let b = choose|b: DiscoveredBatch|
        reconciled(v.ordered[v.batches.len() as int], v.state, remaining@, v.owner, b)
            && next_batch(
            ScanView { batches: #[trigger] v.batches.push(b), ..v },
            views[k + 2],
            actions[k + 1],
        );
    assert(views[k + 2].batches == views[k].batches.push(b));
    assert(views[k].batches.push(b).drop_last() =~= views[k].batches);
}

/// A batch whose state has no owner has expired: it is in the list at once, behind
/// those before it, as the account's that was asked about, with no balance, and no
/// balance is asked for.
pub proof fn expired_batch_is_reported(
    views: Seq<ScanView>,
    replies: Seq<ScanReply>,
    actions: Seq<ScanAction>,
    state: BatchState,
    k: int,
)
    requires
        scan_run(views, replies, actions),
        0 < k < actions.len(),
        actions[k - 1] is ReadBatch,
        replies[k] == ScanReply::State(state),
        forall|i: int| 0 <= i < 20 ==> #[trigger] state.owner@[i] == 0,
    ensures
        views[k + 1].ordered == views[k].ordered,
        views[k + 1].batches.len() == views[k].batches.len() + 1,
        views[k + 1].batches.drop_last() == views[k].batches,
        ({
            let b = views[k + 1].batches.last();
            &&& b.batch_id@ == actions[k - 1]->ReadBatch_batch_id@
            &&& !b.live
            &&& b.owner@ == views[0].owner
            &&& b.depth == state.depth
            &&& b.bucket_depth == state.bucket_depth
            &&& b.immutable == state.immutable
            &&& b.remaining_per_chunk@ == 0
        }),
        actions[k] is ReadBatch || actions[k] is Done,
{
    lemma_same_account(views, replies, actions, k);
    assert(scan_step(views[k - 1], replies[k - 1], views[k], actions[k - 1]));
    assert(scan_step(views[k], replies[k], views[k + 1], actions[k]));
    assert(is_nobody(state.owner@)) by {
        assert(state.owner@ =~= crate::bytes::zeros(20));
    }
    assert(views[k].stage == ScanStage::State);
    let v = views[k];
    let b = choose|b: DiscoveredBatch|
        reconciled(v.ordered[v.batches.len() as int], state, 0, v.owner, b) && next_batch(
            ScanView { state, batches: #[trigger] v.batches.push(b), ..v },
            views[k + 1],
            actions[k],
        );
    assert(views[k + 1].batches == v.batches.push(b));
    assert(v.batches.push(b).drop_last() =~= v.batches);
}

/// A page of logs changes nothing but the list of batches, and a discovery with no
/// batch left to ask about is over: without a batch of the account, nothing is
/// asked of any batch.
pub proof fn account_without_batches(
    views: Seq<ScanView>,
    replies: Seq<ScanReply>,
    actions: Seq<ScanAction>,
    k: int,
)
    requires
        scan_run(views, replies, actions),
        0 <= k < actions.len(),
        views[k].stage == ScanStage::Logs,
        replies[k] is Logs,
        views[k].ordered.len() == 0,
        views[k].batches.len() == 0,
        forall|i: int|
            0 <= i < replies[k]->Logs_0@.len() ==> {
                let log = #[trigger] logs_of(replies[k]->Logs_0@)[i];
                log.data.len() < 192 || log.data.subrange(76, 96) != views[0].owner
            },
    ensures
        views[k + 1].ordered.len() == 0,
        actions[k] is ReadLogs || actions[k] is Done,
{
    lemma_same_account(views, replies, actions, k);
    assert(scan_step(views[k], replies[k], views[k + 1], actions[k]));
    let logs = logs_of(replies[k]->Logs_0@);
    let all = found(views[k].ordered, logs, views[k].owner);
    if all.len() > 0 {
        assert(views[k].ordered =~= Seq::empty());
        scan_finds_each_batch_once(views[k].ordered, logs, views[k].owner, all[0]);
        assert(all.contains(all[0]));
        let i = choose|i: int|
            0 <= i < logs.len() && #[trigger] created(logs[i]) == Some((all[0], views[k].owner));
        let log = logs[i];
    }
}

/// A batch's line has fixed columns: the id from the third character on, then the
/// depth, the bucket depth, whether it is immutable, and whether it lives; the
/// balance in tokens and their name come last.
#[verifier::spinoff_prover]
#[verifier::rlimit(40)]
pub proof fn batch_line_has_columns(b: DiscoveredBatch)
    ensures
        batch_line(b).len() == 129 + bzz_text(b.remaining_per_chunk@).len(),
        batch_line(b).subrange(2, 68) == hex_0x(b.batch_id@),
        batch_line(b).subrange(68, 76) == "  depth "@,
        batch_line(b).subrange(76, 79) == flush_left(dec(b.depth as nat), 3),
        batch_line(b).subrange(79, 87) == " bucket "@,
        batch_line(b).subrange(87, 90) == flush_left(dec(b.bucket_depth as nat), 3),
        b.immutable ==> batch_line(b).subrange(91, 100) == "immutable"@,
        !b.immutable ==> batch_line(b).subrange(91, 100) == "mutable  "@,
        b.live ==> batch_line(b).subrange(101, 108) == "live   "@,
        !b.live ==> batch_line(b).subrange(101, 108) == "expired"@,
        batch_line(b).subrange(108, 125) == " remaining/chunk "@,
        batch_line(b).subrange(125, batch_line(b).len() - 4) == bzz_text(b.remaining_per_chunk@),
        batch_line(b).skip(batch_line(b).len() - 4) == " BZZ"@,
{
    reveal_strlit("  ");
    reveal_strlit("  depth ");
    reveal_strlit(" bucket ");
    reveal_strlit(" ");
    reveal_strlit("immutable");
    reveal_strlit("mutable");
    reveal_strlit("mutable  ");
    reveal_strlit("live");
    reveal_strlit("live   ");
    reveal_strlit("expired");
    reveal_strlit(" remaining/chunk ");
    reveal_strlit(" BZZ");
    crate::hexes::shown_bytes_are_spelled(b.batch_id@);
    reveal_with_fuel(dec, 4);
    assert(dec(b.depth as nat).len() <= 3);
    assert(dec(b.bucket_depth as nat).len() <= 3);
    let line = batch_line(b);
    assert(line.subrange(2, 68) =~= hex_0x(b.batch_id@));
    assert(line.subrange(68, 76) =~= "  depth "@);
    assert(line.subrange(76, 79) =~= flush_left(dec(b.depth as nat), 3));
    assert(line.subrange(79, 87) =~= " bucket "@);
    assert(line.subrange(87, 90) =~= flush_left(dec(b.bucket_depth as nat), 3));
    assert(b.immutable ==> line.subrange(91, 100) =~= "immutable"@);
    assert(!b.immutable ==> line.subrange(91, 100) =~= "mutable  "@);
    assert(b.live ==> line.subrange(101, 108) =~= "live   "@);
    assert(!b.live ==> line.subrange(101, 108) =~= "expired"@);
    assert(line.subrange(108, 125) =~= " remaining/chunk "@);
    assert(line.subrange(125, line.len() - 4) =~= bzz_text(b.remaining_per_chunk@));
    assert(line.skip(line.len() - 4) =~= " BZZ"@);
}

/// Two usages that look the same are the same, and a header tells an empty list from
/// one with batches in it, ending in the account or in the account and a colon.
pub proof fn usage_lines_tell_apart(u: Usage, other: Usage, owner: Seq<u8>, count: nat)
    ensures
        u is Snapshot ==> usage_line(u) == "      usage: sequence "@ + dec(
            u->sequence as nat,
        ) + ", peak bucket fill "@ + dec(u->peak as nat),
        u is Unknown && other is Snapshot ==> usage_line(u) != usage_line(other),
        count > 0 ==> list_header(owner, count) == list_header(owner, 1),
        list_header(owner, 0) == "No batches found for owner "@ + hex_0x(owner),
        list_header(owner, 1) == "Batches owned by "@ + hex_0x(owner) + ":"@,
{
    reveal_strlit("      usage: sequence ");
    reveal_strlit("      usage: (no published snapshot)");
    if u is Unknown && other is Snapshot {
        assert(usage_line(u)[13] == '(');
        assert(usage_line(other)[13] == 's');
    }
}

/// What is reported of a batch's usage: nothing where the node cannot be reached, what was
/// opened where something was, and else that nothing is known.
pub proof fn usage_is_reported_where_known(
    reachable: bool,
    opened: Option<Usage>,
    u: Option<Usage>,
)
    requires
        call_ensures(reported_usage, (reachable, opened), u),
    ensures
        u is Some <==> reachable,
        reachable && opened is Some ==> u == opened,
        reachable && opened is None ==> u == Some(Usage::Unknown),
{
}

/// A batch is reported in one line, and its usage, where there is one, in a second.
pub proof fn batches_are_reported(
    b: DiscoveredBatch,
    usage: Option<Usage>,
    lines: Vec<String>,
    owner: &Bytes20,
    count: usize,
    header: String,
)
    requires
        call_ensures(batch_report, (&b, usage), lines),
        call_ensures(list_header_text, (owner, count), header),
    ensures
        lines@.len() == (if usage is Some {
            2nat
        } else {
            1nat
        }),
        lines@[0]@.subrange(2, 68) == hex_0x(b.batch_id@),
        lines@[0]@ == batch_line(b),
        usage matches Some(u) ==> lines@[1]@ == usage_line(u),
        count == 0 ==> header@ == "No batches found for owner "@ + hex_0x(owner@),
        count > 0 ==> header@ == "Batches owned by "@ + hex_0x(owner@) + ":"@,
{
    batch_line_has_columns(b);
    let shown = lines_of(lines@);
    assert(shown.len() == lines@.len());
    assert(shown[0] == lines@[0]@);
    if usage is Some {
        assert(shown[1] == lines@[1]@);
    }
}

/// A discovery starts with nothing found, asks for the head of the chain first, takes one
/// step with each reply, and hands out the batches that it has.
pub proof fn discoveries_go_step_by_step(
    addrs: ChainAddrs,
    owner: Bytes20,
    start: Discovery,
    first: ScanAction,
    d: &mut Discovery,
    reply: ScanReply,
    a: ScanAction,
    over: Discovery,
    batches: Vec<DiscoveredBatch>,
)
    requires
        call_ensures(Discovery::new, (addrs, owner), start),
        call_ensures(Discovery::begin, (&start,), first),
        call_ensures(Discovery::on_reply, (d, reply), a),
        call_ensures(Discovery::finish, (over,), batches),
    ensures
        start@.addrs == addrs,
        start@.owner == owner@,
        start@.stage == ScanStage::Head,
        start@.ordered.len() == 0,
        start@.batches.len() == 0,
        first is ReadHead,
        scan_step(old(d)@, reply, final(d)@, a),
        batches@ == over@.batches,
{
}

/// A discovery ends once: after its end, and on a reply that it is not waiting for, it is
/// out of step, and what it found stays as it is.
pub proof fn discoveries_end_once(v: ScanView, r: ScanReply, w: ScanView, a: ScanAction)
    requires
        scan_step(v, r, w, a),
    ensures
        a is Done || a is OutOfStep <==> w.stage == ScanStage::Over,
        v.stage == ScanStage::Over ==> a is OutOfStep,
        v.stage == ScanStage::Head && !(r is Head) ==> a is OutOfStep,
        v.stage == ScanStage::Logs && !(r is Logs) ==> a is OutOfStep,
        v.stage == ScanStage::State && !(r is State) ==> a is OutOfStep,
        v.stage == ScanStage::Remaining && !(r is Remaining) ==> a is OutOfStep,
        a is OutOfStep ==> w.batches == v.batches && w.ordered == v.ordered,
        !(v.stage == ScanStage::Logs) ==> w.ordered == v.ordered,
{
}

/// Batch ids are seen as they are, in order.
pub proof fn ids_are_seen_as_they_are(ids: Seq<Bytes32>, i: int)
    requires
        0 <= i < ids.len(),
    ensures
        ids_of(ids).len() == ids.len(),
        ids_of(ids)[i] == ids[i]@,
{
}

} // verus!
