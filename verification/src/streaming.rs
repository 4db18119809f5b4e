//! Many retrievals over one stream: who waits for which address, how replies
//! find their waiter, and what happens when the stream breaks.
//!
//! A waiter is known by a ticket. The caller holds what the ticket stands for,
//! and hands it the result that the table assigns to it.

use vstd::prelude::*;

use crate::bytes::{same_bytes, Bytes32};
use crate::store::{accept_chunk, accepted, hashed_wire, Chunk, StoreError, StoreFault};

verus! {

/// The number of streams that one retrieval tries.
pub const OPEN_ATTEMPTS: usize = 3;

/// The number of requests that a stream takes before a sender waits.
pub const REQUEST_BUFFER: usize = 1024;

/// The waiters of a stream, as contracts see them: whether the stream is
/// closed, and who waits for what, in the order of registration.
pub struct WaitersView {
    pub closed: bool,
    pub pending: Seq<(Seq<u8>, u64)>,
}

/// The waiters of one stream.
pub struct Waiters {
    closed: bool,
    pending: Vec<(Vec<u8>, u64)>,
}

/// The views of a list of waiters.
pub open spec fn waiting(v: Seq<(Vec<u8>, u64)>) -> Seq<(Seq<u8>, u64)> {
    v.map_values(|w: (Vec<u8>, u64)| (w.0@, w.1))
}

impl View for Waiters {
    type V = WaitersView;

    closed spec fn view(&self) -> WaitersView {
        WaitersView { closed: self.closed, pending: waiting(self.pending@) }
    }
}

/// The tickets that wait for `address`, the longest first.
pub open spec fn queue(pending: Seq<(Seq<u8>, u64)>, address: Seq<u8>) -> Seq<u64>
    decreases pending.len(),
{
    if pending.len() == 0 {
        Seq::empty()
    } else {
        let before = queue(pending.drop_last(), address);
        if pending.last().0 == address {
            before.push(pending.last().1)
        } else {
            before
        }
    }
}

/// `at` is the place of the waiter that has waited longest for `address`.
pub open spec fn first_waiter(pending: Seq<(Seq<u8>, u64)>, address: Seq<u8>, at: int) -> bool {
    &&& 0 <= at < pending.len()
    &&& pending[at].0 == address
    &&& forall|i: int| 0 <= i < at ==> (#[trigger] pending[i]).0 != address
}

/// A reply of the node on the shared stream.
pub enum StreamReply {
    /// A chunk's wire body, for an address.
    Chunk { address: Vec<u8>, data: Vec<u8> },
    /// An error, in words, for an address.
    Error { address: Vec<u8>, message: String },
    /// Neither.
    Nothing,
}

/// The address that a reply is for.
pub open spec fn reply_address(r: StreamReply) -> Option<Seq<u8>> {
    match r {
        StreamReply::Chunk { address, .. } => Some(address@),
        StreamReply::Error { address, .. } => Some(address@),
        StreamReply::Nothing => None,
    }
}

/// What a waiter is handed.
pub struct Delivery {
    pub ticket: u64,
    pub result: Result<Vec<u8>, StoreError>,
}

/// A waiter's result, as contracts see it.
pub open spec fn result_view(r: Result<Vec<u8>, StoreError>) -> Result<Seq<u8>, StoreFault> {
    match r {
        Ok(d) => Ok(d@),
        Err(e) => Err(e@),
    }
}

/// The result that a reply carries.
pub open spec fn reply_result(r: StreamReply) -> Result<Seq<u8>, StoreFault> {
    match r {
        StreamReply::Chunk { data, .. } => Ok(data@),
        StreamReply::Error { message, .. } => Err(StoreFault::NotFound(message@)),
        StreamReply::Nothing => Err(StoreFault::StreamReset),
    }
}

impl Waiters {
    /// No waiters, on an open stream.
    pub fn new() -> (w: Waiters)
        ensures
            w@ == (WaitersView { closed: false, pending: Seq::empty() }),
    {
        let w = Waiters { closed: false, pending: Vec::new() };
        assert(w@.pending =~= Seq::empty());
        w
    }

    /// Whether the stream is closed.
    pub fn is_closed(&self) -> (closed: bool)
        ensures
            closed == self@.closed,
    {
        self.closed
    }

    /// Lets `ticket` wait for `key`, behind all that wait already. A closed
    /// stream takes no waiter and hands the ticket back.
    pub fn register(&mut self, key: Vec<u8>, ticket: u64) -> (r: Result<(), u64>)
        ensures
            old(self)@.closed ==> r == Err::<(), u64>(ticket) && final(self)@ == old(self)@,
            !old(self)@.closed ==> r == Ok::<(), u64>(()) && final(self)@ == (WaitersView {
                closed: false,
                pending: old(self)@.pending.push((key@, ticket)),
            }),
    {
        if self.closed {
            return Err(ticket);
        }
        let ghost before = self.pending@;
        let ghost k = key@;
        self.pending.push((key, ticket));
        assert(waiting(self.pending@) =~= waiting(before).push((k, ticket)));
        Ok(())
    }

    /// Gives a reply to the waiter that has waited longest for its address. A
    /// reply that nobody waits for is dropped, and so is an empty one.
    pub fn route(&mut self, reply: StreamReply) -> (d: Option<Delivery>)
        ensures
            final(self)@.closed == old(self)@.closed,
            match d {
                Some(delivery) => exists|at: int|
                    reply_address(reply) is Some && #[trigger] first_waiter(
                        old(self)@.pending,
                        reply_address(reply)->0,
                        at,
                    ) && delivery.ticket == old(self)@.pending[at].1 && final(self)@.pending
                        == old(self)@.pending.remove(at) && result_view(delivery.result)
                        == reply_result(reply),
                None => final(self)@ == old(self)@ && (reply_address(reply) matches Some(a)
                    ==> forall|i: int|
                    0 <= i < old(self)@.pending.len() ==> (#[trigger] old(self)@.pending[i]).0 != a),
            },
    {
        let ghost whole = reply;
        let (address, result) = match reply {
            StreamReply::Chunk { address, data } => (address, Ok(data)),
            StreamReply::Error { address, message } => {
                (address, Err(StoreError::NotFound(message)))
            },
            StreamReply::Nothing => {
                return None;
            },
        };
        let ghost before = self.pending@;
        let ghost shown = waiting(before);
        let mut i: usize = 0;
        while i < self.pending.len()
            invariant
                i <= self.pending.len(),
                self.pending@ == before,
                self.closed == old(self).closed,
                before == old(self).pending@,
                shown == waiting(before),
                reply_address(whole) == Some(address@),
                result_view(result) == reply_result(whole),
                whole == reply,
                forall|j: int| 0 <= j < i ==> (#[trigger] shown[j]).0 != address@,
            decreases self.pending.len() - i,
        {
            assert(shown[i as int] == (self.pending@[i as int].0@, self.pending@[i as int].1));
            if same_bytes(self.pending[i].0.as_slice(), address.as_slice()) {
                let (key, ticket) = self.pending.remove(i);
                proof {
                    assert(old(self)@.pending == shown);
                    assert(first_waiter(old(self)@.pending, reply_address(reply)->0, i as int));
                    assert(ticket == shown[i as int].1);
                    assert(self@.pending =~= shown.remove(i as int));
                }
                return Some(Delivery { ticket, result });
            }
            i = i + 1;
        }
        None
    }

    /// Closes the stream. Every waiter is handed the reset; who waited is
    /// returned in the order of registration. Closing twice hands out nothing
    /// the second time.
    pub fn close_and_drain(&mut self) -> (drained: Vec<Delivery>)
        ensures
            final(self)@ == (WaitersView { closed: true, pending: Seq::empty() }),
            drained@.len() == old(self)@.pending.len(),
            forall|i: int|
                0 <= i < drained@.len() ==> (#[trigger] drained@[i]).ticket
                    == old(self)@.pending[i].1 && result_view(drained@[i].result)
                    == Err::<Seq<u8>, StoreFault>(StoreFault::StreamReset),
    {
        self.closed = true;
        let mut drained: Vec<Delivery> = Vec::new();
        let mut i: usize = 0;
        while i < self.pending.len()
            invariant
                i <= self.pending.len(),
                self.closed,
                self.pending == old(self).pending,
                drained@.len() == i,
                forall|j: int|
                    0 <= j < i ==> (#[trigger] drained@[j]).ticket == old(self)@.pending[j].1
                        && result_view(drained@[j].result) == Err::<Seq<u8>, StoreFault>(
                        StoreFault::StreamReset,
                    ),
            decreases self.pending.len() - i,
        {
            drained.push(
                Delivery { ticket: self.pending[i].1, result: Err(StoreError::StreamReset) },
            );
            i = i + 1;
        }
        self.pending = Vec::new();
        assert(self@.pending =~= Seq::empty());
        drained
    }
}

proof fn lemma_queue_remove(pending: Seq<(Seq<u8>, u64)>, at: int, address: Seq<u8>)
    requires
        0 <= at < pending.len(),
        pending[at].0 != address,
    ensures
        queue(pending.remove(at), address) == queue(pending, address),
    decreases pending.len(),
{
    if at == pending.len() - 1 {
        assert(pending.remove(at) =~= pending.drop_last());
    } else {
        lemma_queue_remove(pending.drop_last(), at, address);
        assert(pending.remove(at).drop_last() =~= pending.drop_last().remove(at));
        assert(pending.remove(at).last() == pending.last());
    }
}

proof fn lemma_queue_empty(pending: Seq<(Seq<u8>, u64)>, address: Seq<u8>)
    requires
        forall|i: int| 0 <= i < pending.len() ==> (#[trigger] pending[i]).0 != address,
    ensures
        queue(pending, address) == Seq::<u64>::empty(),
    decreases pending.len(),
{
    if pending.len() > 0 {
        assert(pending.last() == pending[pending.len() - 1]);
        assert forall|i: int| 0 <= i < pending.drop_last().len() implies (
        #[trigger] pending.drop_last()[i]).0 != address by {
            assert(pending.drop_last()[i] == pending[i]);
        }
        lemma_queue_empty(pending.drop_last(), address);
    }
}

proof fn lemma_queue_pops_head(pending: Seq<(Seq<u8>, u64)>, at: int, address: Seq<u8>)
    requires
        first_waiter(pending, address, at),
    ensures
        queue(pending, address).len() > 0,
        queue(pending, address)[0] == pending[at].1,
        queue(pending.remove(at), address) == queue(pending, address).skip(1),
    decreases pending.len(),
{
    let front = pending.drop_last();
    if at == pending.len() - 1 {
        assert forall|i: int| 0 <= i < front.len() implies (#[trigger] front[i]).0 != address by {
            assert(front[i] == pending[i]);
        }
        lemma_queue_empty(front, address);
        assert(pending.remove(at) =~= front);
        assert(queue(pending, address).skip(1) =~= Seq::empty());
    } else {
        assert forall|i: int| 0 <= i < at implies (#[trigger] front[i]).0 != address by {
            assert(front[i] == pending[i]);
        }
        lemma_queue_pops_head(front, at, address);
        assert(pending.remove(at).drop_last() =~= front.remove(at));
        assert(pending.remove(at).last() == pending.last());
        assert(queue(pending, address).skip(1) =~= (if pending.last().0 == address {
            queue(front, address).skip(1).push(pending.last().1)
        } else {
            queue(front, address).skip(1)
        }));
    }
}

/// First come, first served, address by address: a reply goes to the head of
/// its address's queue and takes it off, and leaves every other queue alone.
pub proof fn routing_is_fifo(pending: Seq<(Seq<u8>, u64)>, at: int, address: Seq<u8>, other: Seq<u8>)
    requires
        first_waiter(pending, address, at),
    ensures
        queue(pending, address).len() > 0,
        pending[at].1 == queue(pending, address)[0],
        queue(pending.remove(at), address) == queue(pending, address).skip(1),
        other != address ==> queue(pending.remove(at), other) == queue(pending, other),
{
    lemma_queue_pops_head(pending, at, address);
    if other != address {
        lemma_queue_remove(pending, at, other);
    }
}

/// A new waiter goes to the end of its address's queue, and to no other.
pub proof fn registration_joins_the_end(
    pending: Seq<(Seq<u8>, u64)>,
    key: Seq<u8>,
    ticket: u64,
    other: Seq<u8>,
)
    ensures
        queue(pending.push((key, ticket)), key) == queue(pending, key).push(ticket),
        other != key ==> queue(pending.push((key, ticket)), other) == queue(pending, other),
{
    assert(pending.push((key, ticket)).drop_last() =~= pending);
}

/// Whether the stored stream can be used: there is one, and it is not closed.
pub fn can_reuse(stored_is_closed: Option<bool>) -> (reuse: bool)
    ensures
        reuse == (stored_is_closed == Some(false)),
{
    match stored_is_closed {
        Some(closed) => !closed,
        None => false,
    }
}

/// The stored stream after stream `dead` was found dead: cleared where it is
/// that one, and kept where another has taken its place.
pub fn retire(stored: Option<u64>, dead: u64) -> (r: Option<u64>)
    ensures
        r == (if stored == Some(dead) {
            None
        } else {
            stored
        }),
{
    match stored {
        Some(id) => if id == dead {
            None
        } else {
            stored
        },
        None => None,
    }
}

/// What a caller that needs a live stream does: use the stored one, or open one.
#[derive(Clone, Copy, Debug, PartialEq, Eq, Structural)]
pub enum Acquire {
    /// Use the stored stream.
    Reuse(u64),
    /// Open a stream.
    Open,
}

/// What a caller does where `stored` is the stored stream, if any, and `closed`
/// tells whether that one is closed.
pub open spec fn acquire_step(stored: Option<u64>, closed: bool) -> Acquire {
    match stored {
        Some(id) => if closed {
            Acquire::Open
        } else {
            Acquire::Reuse(id)
        },
        None => Acquire::Open,
    }
}

/// The stored stream after an open: the new one, or, where the open failed, the
/// one that was stored before.
pub open spec fn stored_after(stored: Option<u64>, opened: Result<u64, StoreFault>) -> Option<u64> {
    match opened {
        Ok(id) => Some(id),
        Err(_) => stored,
    }
}

/// The result of an open, as contracts see it.
pub open spec fn open_view(r: Result<u64, StoreError>) -> Result<u64, StoreFault> {
    match r {
        Ok(id) => Ok(id),
        Err(e) => Err(e@),
    }
}

/// The place of the one stream that all retrievals share. A stream is known by a
/// number. The caller holds a lock from the question to the answer, so that no
/// two callers open at the same time.
pub struct StreamSlot {
    stored: Option<u64>,
}

impl View for StreamSlot {
    type V = Option<u64>;

    closed spec fn view(&self) -> Option<u64> {
        self.stored
    }
}

impl StreamSlot {
    /// No stream is stored.
    pub fn new() -> (s: StreamSlot)
        ensures
            s@ is None,
    {
        StreamSlot { stored: None }
    }

    /// How to get a live stream, where `closed` tells whether the stored one, if
    /// any, is closed: an open one is handed out; else one is to be opened.
    pub fn live_handle(&self, closed: bool) -> (a: Acquire)
        ensures
            a == acquire_step(self@, closed),
    {
        match self.stored {
            Some(id) => if can_reuse(Some(closed)) {
                Acquire::Reuse(id)
            } else {
                Acquire::Open
            },
            None => Acquire::Open,
        }
    }

    /// Takes the result of an open and hands it on: a new stream is stored; a
    /// failed open leaves what is stored as it was.
    pub fn opened(&mut self, result: Result<u64, StoreError>) -> (r: Result<u64, StoreError>)
        ensures
            r == result,
            final(self)@ == stored_after(old(self)@, open_view(result)),
    {
        match result {
            Ok(id) => {
                self.stored = Some(id);
                Ok(id)
            },
            Err(e) => Err(e),
        }
    }

    /// Clears stream `dead`, where it is the stored one.
    pub fn retire(&mut self, dead: u64)
        ensures
            final(self)@ == (if old(self)@ == Some(dead) {
                None
            } else {
                old(self)@
            }),
    {
        self.stored = retire(self.stored, dead);
    }
}

/// One caller's turn: what is stored after it, what the caller gets, and how many
/// streams were opened, where an open would give `opened`.
pub open spec fn live_turn(stored: Option<u64>, closed: bool, opened: Result<u64, StoreFault>) -> (
    Option<u64>,
    Result<u64, StoreFault>,
    nat,
) {
    match acquire_step(stored, closed) {
        Acquire::Reuse(id) => (stored, Ok(id), 0),
        Acquire::Open => (stored_after(stored, opened), opened, 1),
    }
}

/// An open stored stream is handed out without an open. Where there is none, or a
/// closed one, exactly one is opened, and handed out and stored where that
/// succeeds; where it fails, the error is handed out and what is stored stays.
pub proof fn live_stream_is_shared(
    stored: Option<u64>,
    closed: bool,
    opened: Result<u64, StoreFault>,
)
    ensures
        stored is Some && !closed ==> live_turn(stored, closed, opened) == (
            stored,
            Ok::<u64, StoreFault>(stored->0),
            0nat,
        ),
        (stored is None || closed) && opened is Ok ==> live_turn(stored, closed, opened) == (
            Some(opened->Ok_0),
            opened,
            1nat,
        ),
        (stored is None || closed) && opened is Err ==> live_turn(stored, closed, opened) == (
            stored,
            opened,
            1nat,
        ),
{
}

/// What is stored after the turns of several callers, one after another, where
/// caller `i` finds the stored stream closed as `closed[i]` says, and an open of
/// its would give `opened[i]`.
pub open spec fn stored_after_turns(
    stored: Option<u64>,
    closed: Seq<bool>,
    opened: Seq<Result<u64, StoreFault>>,
) -> Option<u64>
    decreases closed.len(),
{
    if closed.len() == 0 {
        stored
    } else {
        live_turn(
            stored_after_turns(stored, closed.drop_last(), opened),
            closed.last(),
            opened[closed.len() - 1],
        ).0
    }
}

/// The number of streams that those callers open.
pub open spec fn opens_in_turns(
    stored: Option<u64>,
    closed: Seq<bool>,
    opened: Seq<Result<u64, StoreFault>>,
) -> nat
    decreases closed.len(),
{
    if closed.len() == 0 {
        0
    } else {
        opens_in_turns(stored, closed.drop_last(), opened) + live_turn(
            stored_after_turns(stored, closed.drop_last(), opened),
            closed.last(),
            opened[closed.len() - 1],
        ).2
    }
}

/// What caller `i` gets.
pub open spec fn got_in_turn(
    stored: Option<u64>,
    closed: Seq<bool>,
    opened: Seq<Result<u64, StoreFault>>,
    i: int,
) -> Result<u64, StoreFault> {
    live_turn(stored_after_turns(stored, closed.take(i), opened), closed[i], opened[i]).1
}

/// One stream serves all: where the first caller gets a stream and it stays up,
/// every caller gets that same stream, and one stream is opened in all, or none
/// where an open one was stored.
pub proof fn one_open_for_all(
    stored: Option<u64>,
    closed: Seq<bool>,
    opened: Seq<Result<u64, StoreFault>>,
    i: int,
)
    requires
        0 <= i < closed.len(),
        live_turn(stored, closed[0], opened[0]).1 is Ok,
        forall|j: int| 0 < j < closed.len() ==> !#[trigger] closed[j],
    ensures
        got_in_turn(stored, closed, opened, i) == live_turn(stored, closed[0], opened[0]).1,
        opens_in_turns(stored, closed, opened) == (if stored is Some && !closed[0] {
            0nat
        } else {
            1nat
        }),
{
    lemma_turns(stored, closed, opened);
    if i == 0 {
        assert(closed.take(0) =~= Seq::empty());
    } else {
        let before = closed.take(i);
        assert forall|j: int| 0 < j < before.len() implies !#[trigger] before[j] by {
            assert(before[j] == closed[j]);
        }
        lemma_turns(stored, before, opened);
    }
}

proof fn lemma_turns(stored: Option<u64>, closed: Seq<bool>, opened: Seq<Result<u64, StoreFault>>)
    requires
        closed.len() > 0,
        live_turn(stored, closed[0], opened[0]).1 is Ok,
        forall|j: int| 0 < j < closed.len() ==> !#[trigger] closed[j],
    ensures
        stored_after_turns(stored, closed, opened) == Some(
            live_turn(stored, closed[0], opened[0]).1->Ok_0,
        ),
        opens_in_turns(stored, closed, opened) == live_turn(stored, closed[0], opened[0]).2,
    decreases closed.len(),
{
    let front = closed.drop_last();
    if closed.len() == 1 {
        assert(front =~= Seq::empty());
        assert(stored_after_turns(stored, front, opened) == stored);
        assert(opens_in_turns(stored, front, opened) == 0);
    } else {
        assert forall|j: int| 0 < j < front.len() implies !#[trigger] front[j] by {
            assert(front[j] == closed[j]);
        }
        lemma_turns(stored, front, opened);
        assert(!closed[closed.len() - 1]);
    }
}

/// Where a retrieval stands.
#[derive(Clone, Copy, Debug, PartialEq, Eq, Structural)]
pub enum Stage {
    /// It needs a live stream.
    Acquiring,
    /// It is to register as a waiter on the stream.
    Registering,
    /// It is to send its request.
    Sending,
    /// It waits for its reply.
    Waiting,
    /// It is over.
    Over,
}

/// What a retrieval learns.
pub enum GetEvent {
    /// A live stream is at hand.
    Acquired,
    /// No stream could be opened.
    OpenFailed(StoreError),
    /// It is registered.
    Registered,
    /// The stream was closed already.
    RegisterRefused,
    /// The request is on its way.
    Sent,
    /// The stream takes no requests any more.
    SendRefused,
    /// The waiter was handed a result.
    Delivered(Result<Vec<u8>, StoreError>),
    /// The waiter was dropped without a result.
    Dropped,
}

/// What a retrieval does next.
pub enum GetAction {
    /// Get a live stream, opening one where need be.
    Acquire,
    /// Retire the stream and get another.
    RetireAndAcquire,
    /// Register as a waiter for the address.
    Register,
    /// Send the request.
    Send,
    /// Wait for the result.
    Wait,
    /// Return the chunk.
    Return(Chunk),
    /// Return the error.
    Fail(StoreError),
    /// Retire the stream and return the error.
    RetireAndFail(StoreError),
}

/// A retrieval's next step, as contracts see it.
pub enum Move {
    Acquire,
    RetireAndAcquire,
    Register,
    Send,
    Wait,
    Return(Seq<u8>),
    Fail(StoreFault),
    RetireAndFail(StoreFault),
}

impl View for GetAction {
    type V = Move;

    open spec fn view(&self) -> Move {
        match *self {
            GetAction::Acquire => Move::Acquire,
            GetAction::RetireAndAcquire => Move::RetireAndAcquire,
            GetAction::Register => Move::Register,
            GetAction::Send => Move::Send,
            GetAction::Wait => Move::Wait,
            GetAction::Return(c) => Move::Return(c.wire@),
            GetAction::Fail(e) => Move::Fail(e@),
            GetAction::RetireAndFail(e) => Move::RetireAndFail(e@),
        }
    }
}

/// One retrieval over the shared stream.
pub struct GetFlow {
    address: Bytes32,
    attempts: usize,
    stage: Stage,
}

/// A retrieval, as contracts see it: its address, the number of streams it has
/// asked for, and where it stands.
pub struct GetView {
    pub address: Seq<u8>,
    pub attempts: nat,
    pub stage: Stage,
}

impl View for GetFlow {
    type V = GetView;

    closed spec fn view(&self) -> GetView {
        GetView { address: self.address@, attempts: self.attempts as nat, stage: self.stage }
    }
}

/// What a result means for a retrieval: the chunk, if it is the one asked for.
pub open spec fn delivered(address: Seq<u8>, r: Result<Seq<u8>, StoreFault>) -> Move {
    match r {
        Err(e) => Move::Fail(e),
        Ok(data) => match accepted(address, data, hashed_wire(data)) {
            Ok(wire) => Move::Return(wire),
            Err(e) => Move::Fail(e),
        },
    }
}

/// The next state and step of a retrieval whose stream was lost before its
/// request was on its way: another stream, while attempts are left.
pub open spec fn lost_stream(v: GetView) -> (GetView, Move) {
    if v.attempts < OPEN_ATTEMPTS {
        (
            GetView { attempts: v.attempts + 1, stage: Stage::Acquiring, ..v },
            Move::RetireAndAcquire,
        )
    } else {
        (GetView { stage: Stage::Over, ..v }, Move::RetireAndFail(StoreFault::StreamReset))
    }
}

/// The next state and step of a retrieval. It registers before it sends, so
/// that no reply comes before its waiter is in place.
pub open spec fn get_step(v: GetView, event: GetEvent) -> (GetView, Move) {
    match (v.stage, event) {
        (Stage::Acquiring, GetEvent::Acquired) => (
            GetView { stage: Stage::Registering, ..v },
            Move::Register,
        ),
        (Stage::Acquiring, GetEvent::OpenFailed(e)) => (
            GetView { stage: Stage::Over, ..v },
            Move::Fail(e@),
        ),
        (Stage::Registering, GetEvent::Registered) => (
            GetView { stage: Stage::Sending, ..v },
            Move::Send,
        ),
        (Stage::Registering, GetEvent::RegisterRefused) => lost_stream(v),
        (Stage::Sending, GetEvent::Sent) => (GetView { stage: Stage::Waiting, ..v }, Move::Wait),
        (Stage::Sending, GetEvent::SendRefused) => lost_stream(v),
        (Stage::Waiting, GetEvent::Delivered(r)) => (
            GetView { stage: Stage::Over, ..v },
            delivered(v.address, result_view(r)),
        ),
        (Stage::Waiting, GetEvent::Dropped) => (
            GetView { stage: Stage::Over, ..v },
            Move::Fail(StoreFault::StreamReset),
        ),
        _ => (GetView { stage: Stage::Over, ..v }, Move::Fail(StoreFault::StreamReset)),
    }
}

impl GetFlow {
    /// At least one stream was asked for, and no more than the limit.
    pub open spec fn wf(self) -> bool {
        1 <= self@.attempts <= OPEN_ATTEMPTS
    }

    /// A retrieval of the chunk at `address`, whose first step is to get a
    /// live stream.
    pub fn new(address: Bytes32) -> (f: GetFlow)
        ensures
            f.wf(),
            f@ == (GetView { address: address@, attempts: 1, stage: Stage::Acquiring }),
    {
        GetFlow { address, attempts: 1, stage: Stage::Acquiring }
    }

    fn lose_stream(&mut self) -> (a: GetAction)
        requires
            old(self).wf(),
        ensures
            final(self).wf(),
            (final(self)@, a@) == lost_stream(old(self)@),
    {
        if self.attempts < OPEN_ATTEMPTS {
            self.attempts = self.attempts + 1;
            self.stage = Stage::Acquiring;
            GetAction::RetireAndAcquire
        } else {
            self.stage = Stage::Over;
            GetAction::RetireAndFail(StoreError::StreamReset)
        }
    }

    /// Takes an event and says what to do next. An event that does not belong
    /// to the stage ends the retrieval as a reset would.
    pub fn on_event(&mut self, event: GetEvent) -> (a: GetAction)
        requires
            old(self).wf(),
        ensures
            final(self).wf(),
            (final(self)@, a@) == get_step(old(self)@, event),
            a matches GetAction::Return(c) ==> c.wf() && c.address@ == old(self)@.address,
    {
        let stage = self.stage;
        match (stage, event) {
            (Stage::Acquiring, GetEvent::Acquired) => {
                self.stage = Stage::Registering;
                GetAction::Register
            },
            (Stage::Acquiring, GetEvent::OpenFailed(e)) => {
                self.stage = Stage::Over;
                GetAction::Fail(e)
            },
            (Stage::Registering, GetEvent::Registered) => {
                self.stage = Stage::Sending;
                GetAction::Send
            },
            (Stage::Registering, GetEvent::RegisterRefused) => self.lose_stream(),
            (Stage::Sending, GetEvent::Sent) => {
                self.stage = Stage::Waiting;
                GetAction::Wait
            },
            (Stage::Sending, GetEvent::SendRefused) => self.lose_stream(),
            (Stage::Waiting, GetEvent::Delivered(r)) => {
                self.stage = Stage::Over;
                match r {
                    Err(e) => GetAction::Fail(e),
                    Ok(data) => match accept_chunk(&self.address, data) {
                        Ok(chunk) => GetAction::Return(chunk),
                        Err(e) => GetAction::Fail(e),
                    },
                }
            },
            (Stage::Waiting, GetEvent::Dropped) => {
                self.stage = Stage::Over;
                GetAction::Fail(StoreError::StreamReset)
            },
            _ => {
                self.stage = Stage::Over;
                GetAction::Fail(StoreError::StreamReset)
            },
        }
    }
}

/// A retrieval registers before it sends: a request goes out only on the news
/// that its waiter is in place, and a result is waited for only once the
/// request is on its way.
pub proof fn waiter_precedes_request(v: GetView, event: GetEvent)
    ensures
        get_step(v, event).1 is Send ==> v.stage == Stage::Registering && event is Registered,
        get_step(v, event).1 is Wait ==> v.stage == Stage::Sending && event is Sent,
        get_step(v, event).1 is Return ==> v.stage == Stage::Waiting && event is Delivered,
{
}

/// The state of a retrieval after a run of events.
pub open spec fn get_run(v: GetView, events: Seq<GetEvent>) -> GetView
    decreases events.len(),
{
    if events.len() == 0 {
        v
    } else {
        get_step(get_run(v, events.drop_last()), events.last()).0
    }
}

/// One retrieval asks for at most three streams, whatever happens, and never
/// comes back from its end.
pub proof fn streams_are_bounded(v: GetView, events: Seq<GetEvent>)
    requires
        1 <= v.attempts <= OPEN_ATTEMPTS,
    ensures
        v.attempts <= get_run(v, events).attempts <= OPEN_ATTEMPTS,
        get_run(v, events).address == v.address,
        v.stage == Stage::Over ==> get_run(v, events).stage == Stage::Over,
    decreases events.len(),
{
    if events.len() > 0 {
        streams_are_bounded(v, events.drop_last());
    }
}

/// A reply reaches its retrieval: once a stream is at hand, the waiter in place and
/// the request sent, a reply that names the address and holds its chunk gives that
/// chunk, as it came; one with an error gives the error's words; and a broken stream
/// gives a reset.
pub proof fn reply_ends_its_retrieval(
    address: Seq<u8>,
    attempts: nat,
    key: Vec<u8>,
    data: Vec<u8>,
    message: String,
    result: Result<Vec<u8>, StoreError>,
)
    requires
        key@ == address,
    ensures
        ({
            let start = GetView { address, attempts, stage: Stage::Acquiring };
            let ready = get_run(
                start,
                seq![GetEvent::Acquired, GetEvent::Registered, GetEvent::Sent],
            );
            let chunk = StreamReply::Chunk { address: key, data };
            let error = StreamReply::Error { address: key, message };
            let end = get_step(ready, GetEvent::Delivered(result));
            &&& get_step(start, GetEvent::Acquired).1 is Register
            &&& get_step(
                get_step(start, GetEvent::Acquired).0,
                GetEvent::Registered,
            ).1 is Send
            &&& ready.attempts == attempts
            &&& reply_address(chunk) == Some(address)
            &&& reply_address(error) == Some(address)
            &&& reply_address(StreamReply::Nothing) is None
            &&& result_view(result) == reply_result(chunk) && crate::chunkops::is_content(data@)
                && crate::chunkops::bmt_address(data@) == address ==> end.1 == Move::Return(data@)
            &&& result_view(result) == reply_result(chunk) && !(crate::chunkops::is_content(data@)
                && crate::chunkops::bmt_address(data@) == address) ==> end.1 is Fail
            &&& result_view(result) == reply_result(error) ==> end.1 == Move::Fail(
                StoreFault::NotFound(message@),
            )
            &&& result_view(result) == Err::<Seq<u8>, StoreFault>(StoreFault::StreamReset)
                ==> end.1 == Move::Fail(StoreFault::StreamReset)
            &&& get_step(ready, GetEvent::Dropped).1 == Move::Fail(StoreFault::StreamReset)
            &&& end.0.stage == Stage::Over
        }),
{
    reveal_with_fuel(get_run, 4);
    let events = seq![GetEvent::Acquired, GetEvent::Registered, GetEvent::Sent];
    assert(events.drop_last() =~= seq![GetEvent::Acquired, GetEvent::Registered]);
    assert(events.drop_last().drop_last() =~= seq![GetEvent::Acquired]);
    assert(events.drop_last().drop_last().drop_last() =~= Seq::<GetEvent>::empty());
}

/// A stream that is lost before the request is on its way is retired and another one
/// asked for, for the same address, twice; where the third is lost too, it is retired
/// and the retrieval ends in a reset. An open that fails ends it with its own error.
pub proof fn lost_streams_are_replaced_twice(
    address: Seq<u8>,
    attempts: nat,
    registering: bool,
    e: StoreError,
)
    ensures
        ({
            let v = GetView {
                address,
                attempts,
                stage: if registering {
                    Stage::Registering
                } else {
                    Stage::Sending
                },
            };
            let lost = get_step(
                v,
                if registering {
                    GetEvent::RegisterRefused
                } else {
                    GetEvent::SendRefused
                },
            );
            &&& attempts < 3 ==> lost == (
                GetView { address, attempts: attempts + 1, stage: Stage::Acquiring },
                Move::RetireAndAcquire,
            )
            &&& attempts >= 3 ==> lost == (
                GetView { address, attempts, stage: Stage::Over },
                Move::RetireAndFail(StoreFault::StreamReset),
            )
        }),
        get_step(
            GetView { address, attempts, stage: Stage::Acquiring },
            GetEvent::OpenFailed(e),
        ) == (GetView { address, attempts, stage: Stage::Over }, Move::Fail(e@)),
{
}

/// The waiters for an address are those that registered for it: where two lists of
/// waiters stand one behind the other, so do their queues, and one waiter makes a
/// queue for its own address alone.
pub proof fn queues_follow_registration(
    first: Seq<(Seq<u8>, u64)>,
    second: Seq<(Seq<u8>, u64)>,
    key: Seq<u8>,
    ticket: u64,
    address: Seq<u8>,
)
    ensures
        queue(first + second, address) == queue(first, address) + queue(second, address),
        queue(seq![(key, ticket)], key) == seq![ticket],
        key != address ==> queue(seq![(key, ticket)], address) == Seq::<u64>::empty(),
    decreases second.len(),
{
    reveal_with_fuel(queue, 2);
    assert(seq![(key, ticket)].drop_last() =~= Seq::<(Seq<u8>, u64)>::empty());
    assert(queue(seq![(key, ticket)], key) =~= seq![ticket]);
    if second.len() == 0 {
        assert(first + second =~= first);
        assert(queue(first, address) + queue(second, address) =~= queue(first, address));
    } else {
        assert((first + second).drop_last() =~= first + second.drop_last());
        assert((first + second).last() == second.last());
        queues_follow_registration(first, second.drop_last(), key, ticket, address);
        assert(queue(first + second, address) =~= queue(first, address) + queue(second, address));
    }
}

/// Registering on an open stream puts the ticket behind all that wait; a closed one hands
/// it back and stays as it is.
pub proof fn registration_waits_in_line(
    w: &mut Waiters,
    key: Vec<u8>,
    ticket: u64,
    r: Result<(), u64>,
    other: Seq<u8>,
)
    requires
        call_ensures(Waiters::register, (w, key, ticket), r),
    ensures
        r is Ok <==> !old(w)@.closed,
        r matches Err(t) ==> t == ticket && final(w)@ == old(w)@,
        r is Ok ==> queue(final(w)@.pending, key@) == queue(old(w)@.pending, key@).push(ticket),
        r is Ok && other != key@ ==> queue(final(w)@.pending, other) == queue(
            old(w)@.pending,
            other,
        ),
        final(w)@.closed == old(w)@.closed,
{
    registration_joins_the_end(old(w)@.pending, key@, ticket, other);
}

/// A reply goes to the one who has waited longest for its address, with its data or its
/// error, and to nobody else; where nobody waits for the address it is dropped.
pub proof fn replies_go_to_the_longest_waiting(
    w: &mut Waiters,
    address: Vec<u8>,
    data: Vec<u8>,
    d: Option<Delivery>,
    other: Seq<u8>,
)
    requires
        call_ensures(
            Waiters::route,
            (w, StreamReply::Chunk { address, data }),
            d,
        ),
    ensures
        d is Some <==> queue(old(w)@.pending, address@).len() > 0,
        d matches Some(delivery) ==> delivery.ticket == queue(old(w)@.pending, address@)[0]
            && (delivery.result matches Ok(got) && got@ == data@),
        d is Some ==> queue(final(w)@.pending, address@) == queue(old(w)@.pending, address@).skip(1),
        other != address@ ==> queue(final(w)@.pending, other) == queue(old(w)@.pending, other),
        final(w)@.closed == old(w)@.closed,
{
    let pending = old(w)@.pending;
    if d is Some {
        let at = choose|at: int|
            #[trigger] first_waiter(pending, address@, at) && d->0.ticket == pending[at].1
                && final(w)@.pending == pending.remove(at) && result_view(d->0.result) == Ok::<
                Seq<u8>,
                StoreFault,
            >(data@);
        routing_is_fifo(pending, at, address@, other);
    } else {
        lemma_queue_empty(pending, address@);
    }
}

/// An error goes to the one who has waited longest for its address, as a chunk that was
/// not found, with its words; an empty reply goes to nobody.
pub proof fn errors_go_to_the_longest_waiting(
    w: &mut Waiters,
    address: Vec<u8>,
    message: String,
    d: Option<Delivery>,
    v: &mut Waiters,
    nothing: Option<Delivery>,
)
    requires
        call_ensures(
            Waiters::route,
            (w, StreamReply::Error { address, message }),
            d,
        ),
        call_ensures(Waiters::route, (v, StreamReply::Nothing), nothing),
    ensures
        d is Some <==> queue(old(w)@.pending, address@).len() > 0,
        d matches Some(delivery) ==> delivery.ticket == queue(old(w)@.pending, address@)[0]
            && result_view(delivery.result) == Err::<Seq<u8>, StoreFault>(
            StoreFault::NotFound(message@),
        ),
        nothing is None,
        final(v)@ == old(v)@,
{
    let pending = old(w)@.pending;
    if d is Some {
        let at = choose|at: int|
            #[trigger] first_waiter(pending, address@, at) && d->0.ticket == pending[at].1;
        routing_is_fifo(pending, at, address@, address@);
    } else {
        lemma_queue_empty(pending, address@);
    }
}

/// A stream that closes hands everybody the reset, in the order of registration, and keeps
/// nobody; a new one is open and has nobody.
pub proof fn closing_hands_out_the_reset(
    w: &mut Waiters,
    drained: Vec<Delivery>,
    fresh: Waiters,
    i: int,
)
    requires
        call_ensures(Waiters::close_and_drain, (w,), drained),
        call_ensures(Waiters::new, (), fresh),
    ensures
        final(w)@.closed,
        final(w)@.pending.len() == 0,
        drained@.len() == old(w)@.pending.len(),
        0 <= i < drained@.len() ==> drained@[i].ticket == old(w)@.pending[i].1 && result_view(
            drained@[i].result,
        ) == Err::<Seq<u8>, StoreFault>(StoreFault::StreamReset),
        !fresh@.closed,
        fresh@.pending.len() == 0,
{
    if 0 <= i < drained@.len() {
        assert(drained@[i].ticket == old(w)@.pending[i].1);
    }
}

/// The stored stream is handed out while it is open, and one is opened otherwise; what is
/// opened is stored and handed out; and only the stream that died is cleared.
pub proof fn stored_stream_is_kept_while_it_lives(
    slot: StreamSlot,
    closed: bool,
    a: Acquire,
    s: &mut StreamSlot,
    result: Result<u64, StoreError>,
    got: Result<u64, StoreError>,
    t: &mut StreamSlot,
    dead: u64,
    fresh: StreamSlot,
)
    requires
        call_ensures(StreamSlot::live_handle, (&slot, closed), a),
        call_ensures(StreamSlot::opened, (s, result), got),
        call_ensures(StreamSlot::retire, (t, dead), ()),
        call_ensures(StreamSlot::new, (), fresh),
    ensures
        slot@ is Some && !closed ==> a == Acquire::Reuse(slot@->0),
        slot@ is None || closed ==> a == Acquire::Open,
        got == result,
        result matches Ok(id) ==> final(s)@ == Some(id),
        result is Err ==> final(s)@ == old(s)@,
        old(t)@ == Some(dead) ==> final(t)@ is None,
        old(t)@ != Some(dead) ==> final(t)@ == old(t)@,
        fresh@ is None,
{
}

/// A retrieval starts by asking for a stream, as its first, and takes one step with each
/// event; a chunk that it returns is at its address.
pub proof fn retrievals_go_step_by_step(
    address: Bytes32,
    start: GetFlow,
    f: &mut GetFlow,
    event: GetEvent,
    a: GetAction,
)
    requires
        call_ensures(GetFlow::new, (address,), start),
        call_ensures(GetFlow::on_event, (f, event), a),
    ensures
        start@.address == address@,
        start@.attempts == 1,
        start@.stage == Stage::Acquiring,
        (final(f)@, a@) == get_step(old(f)@, event),
        a matches GetAction::Return(c) ==> c.address@ == old(f)@.address
            && crate::chunkops::bmt_address(c.wire@) == c.address@,
{
}

/// A retrieval that has returned a chunk or an error is over, and whatever still comes ends
/// in a reset; so does an event that the retrieval is not waiting for. Until it is over it
/// keeps its address.
pub proof fn retrievals_end_once(v: GetView, event: GetEvent)
    ensures
        get_step(v, event).0.address == v.address,
        get_step(v, event).1 is Return || get_step(v, event).1 is Fail || get_step(
            v,
            event,
        ).1 is RetireAndFail <==> get_step(v, event).0.stage == Stage::Over,
        v.stage == Stage::Over ==> get_step(v, event) == (v, Move::Fail(StoreFault::StreamReset)),
        v.stage == Stage::Acquiring && !(event is Acquired) && !(event is OpenFailed) ==> get_step(
            v,
            event,
        ).1 == Move::Fail(StoreFault::StreamReset),
        v.stage == Stage::Registering && !(event is Registered) && !(event is RegisterRefused)
            ==> get_step(v, event).1 == Move::Fail(StoreFault::StreamReset),
        v.stage == Stage::Sending && !(event is Sent) && !(event is SendRefused) ==> get_step(
            v,
            event,
        ).1 == Move::Fail(StoreFault::StreamReset),
        v.stage == Stage::Waiting && !(event is Delivered) ==> get_step(v, event).1 == Move::Fail(
            StoreFault::StreamReset,
        ),
{
}

/// A retrieval's actions and results are seen as they are.
pub proof fn actions_are_seen_as_they_are(
    a: GetAction,
    r: Result<Vec<u8>, StoreError>,
    opened: Result<u64, StoreError>,
)
    ensures
        a is Acquire <==> a@ is Acquire,
        a is RetireAndAcquire <==> a@ is RetireAndAcquire,
        a is Register <==> a@ is Register,
        a is Send <==> a@ is Send,
        a is Wait <==> a@ is Wait,
        a matches GetAction::Return(c) ==> a@ == Move::Return(c.wire@),
        a matches GetAction::Fail(e) ==> a@ == Move::Fail(e@),
        a matches GetAction::RetireAndFail(e) ==> a@ == Move::RetireAndFail(e@),
        r matches Ok(data) ==> result_view(r) == Ok::<Seq<u8>, StoreFault>(data@),
        r matches Err(e) ==> result_view(r) == Err::<Seq<u8>, StoreFault>(e@),
        opened matches Ok(id) ==> open_view(opened) == Ok::<u64, StoreFault>(id),
        opened matches Err(e) ==> open_view(opened) == Err::<u64, StoreFault>(e@),
{
}

/// A stored stream is used where it is not closed, and cleared where it is the dead one.
pub proof fn streams_are_used_and_cleared(
    closed: Option<bool>,
    reuse: bool,
    stored: Option<u64>,
    dead: u64,
    left: Option<u64>,
)
    requires
        call_ensures(can_reuse, (closed,), reuse),
        call_ensures(retire, (stored, dead), left),
    ensures
        reuse <==> closed is Some && !closed->0,
        stored matches Some(id) ==> id == dead ==> left is None,
        stored matches Some(id) ==> id != dead ==> left == Some(id),
        stored is None ==> left is None,
{
}

} // verus!
