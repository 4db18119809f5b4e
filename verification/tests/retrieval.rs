use dipper::bytes::Bytes32;
use dipper::retry::{backoff_for, Attempts, Retry, RetryingStore, BACKOFF_CAP, MAX_ATTEMPTS};
use dipper::store::{Chunk, StoreError};
use dipper::streaming::{
    can_reuse, retire, Acquire, Delivery, GetAction, GetEvent, GetFlow, StreamReply, StreamSlot,
    Waiters,
};

fn sample_chunk(data: &[u8]) -> Chunk {
    let chunk = nectar_primitives::DefaultContentChunk::new(data.to_vec()).expect("a chunk");
    let address = Bytes32 { bytes: (*nectar_primitives::Chunk::address(&chunk)).into() };
    let wire: nectar_primitives::bytes::Bytes = chunk.into();
    Chunk { address, wire: wire.to_vec() }
}

/// A store that fails its first retrievals, then succeeds.
struct FlakyStore {
    chunk: Chunk,
    remaining_failures: u32,
}

impl FlakyStore {
    fn get(&mut self) -> Result<Chunk, &'static str> {
        if self.remaining_failures > 0 {
            self.remaining_failures -= 1;
            return Err("transient");
        }
        Ok(self.chunk.clone())
    }
}

fn get_with_retries(store: &mut RetryingStore<FlakyStore>) -> Result<Chunk, &'static str> {
    let mut attempts = Attempts::first();
    loop {
        match store.inner.get() {
            Ok(chunk) => return Ok(chunk),
            Err(e) => match attempts.failed(0) {
                Retry::After { nanos } => assert!(nanos > 0),
                Retry::GiveUp => return Err(e),
            },
        }
    }
}

#[test]
fn recovers_after_transient_failures() {
    let chunk = sample_chunk(b"retry probe");
    let address = chunk.address;
    let mut store =
        RetryingStore::new(FlakyStore { chunk, remaining_failures: MAX_ATTEMPTS - 1 });

    let got = get_with_retries(&mut store).expect("recovered within budget");
    assert_eq!(got.address, address);
}

#[test]
fn propagates_once_budget_is_spent() {
    let chunk = sample_chunk(b"retry probe");
    let mut store = RetryingStore::new(FlakyStore { chunk, remaining_failures: MAX_ATTEMPTS });

    let err = get_with_retries(&mut store);
    assert!(err.is_err(), "budget exhausted, error must propagate");
}

#[test]
fn backoff_doubles_up_to_its_cap() {
    let millis = |a: u32| backoff_for(a, 0) / 1_000_000;
    assert_eq!(millis(1), 150);
    assert_eq!(millis(2), 300);
    assert_eq!(millis(3), 600);
    assert_eq!(millis(6), 4800);
    assert_eq!(millis(7), 8000);
    assert_eq!(millis(17), 8000);
    assert_eq!(millis(40), 8000);
    assert_eq!(millis(u32::MAX), 8000);
}

#[test]
fn jitter_adds_at_most_half() {
    // A half goes down.
    assert_eq!(backoff_for(1, 1 << 25), 150_000_000 + 585_937);
    // Half a second into the second is a share of 5e8 / 2^33.
    assert_eq!(backoff_for(1, 500_000_000), 150_000_000 + 8_731_149);
    // Half of the backoff, to the nanosecond.
    assert_eq!(backoff_for(6, u32::MAX), 7_200_000_000 - 1);
    for attempt in 1..12 {
        for clock in [0, 1, 999_999_999, u32::MAX] {
            let plain = backoff_for(attempt, 0);
            let with = backoff_for(attempt, clock);
            assert!(plain <= with && 2 * with <= 3 * plain);
        }
    }
}

#[test]
fn no_wait_is_above_the_cap() {
    assert_eq!(backoff_for(6, 999_999_999), 5_358_793_544);
    assert_eq!(backoff_for(7, 0), BACKOFF_CAP);
    assert_eq!(backoff_for(7, 3 << 20), BACKOFF_CAP);
    assert_eq!(backoff_for(7, 999_999_999), BACKOFF_CAP);
    for attempt in 1..40 {
        for clock in [0, 1, 500_000_000, 999_999_999, u32::MAX] {
            assert!(backoff_for(attempt, clock) <= BACKOFF_CAP);
        }
    }
}

#[test]
fn the_last_failure_is_passed_on() {
    let mut attempts = Attempts::first();
    for attempt in 1..MAX_ATTEMPTS {
        assert_eq!(attempts.attempt, attempt);
        assert_eq!(attempts.failed(0), Retry::After { nanos: backoff_for(attempt, 0) });
    }
    assert_eq!(attempts.failed(0), Retry::GiveUp);
    assert_eq!(attempts.failed(0), Retry::GiveUp);
}

#[test]
fn all_waits_together_are_bounded() {
    let mut attempts = Attempts::first();
    let mut total = 0;
    while let Retry::After { nanos } = attempts.failed(u32::MAX) {
        total += nanos;
    }
    // Half as much again as 150 ms doubled up to 4.8 s, and the cap once.
    assert_eq!((total + 6) / 1_000_000, 22_175);
    assert!(total <= 56_000_000_000);
}

fn chunk_response(address: &[u8], data: &[u8]) -> StreamReply {
    StreamReply::Chunk { address: address.to_vec(), data: data.to_vec() }
}

fn error_response(address: &[u8], message: &str) -> StreamReply {
    StreamReply::Error { address: address.to_vec(), message: message.to_owned() }
}

#[test]
fn route_demuxes_by_address_and_preserves_fifo() {
    let mut handle = Waiters::new();
    let addr_a = vec![0xaa_u8; 32];
    let addr_b = vec![0xbb_u8; 32];

    let (a1, a2, b) = (1, 2, 3);
    handle.register(addr_a.clone(), a1).expect("open");
    handle.register(addr_a.clone(), a2).expect("open");
    handle.register(addr_b.clone(), b).expect("open");

    // Responses arrive out of registration order; each still finds its
    // address, and the two waiters for A resolve in FIFO order.
    let first = handle.route(chunk_response(&addr_b, b"B")).expect("a waiter for B");
    let second = handle.route(error_response(&addr_a, "miss")).expect("a waiter for A");
    let third = handle.route(chunk_response(&addr_a, b"A2")).expect("a waiter for A");

    assert_eq!(first.ticket, b);
    assert_eq!(first.result.expect("ok"), b"B");
    assert_eq!(second.ticket, a1);
    assert!(second.result.is_err(), "first A waiter got miss");
    assert_eq!(third.ticket, a2);
    assert_eq!(third.result.expect("ok"), b"A2");

    assert!(handle.route(chunk_response(&addr_a, b"A3")).is_none(), "nobody waits any more");
    assert!(handle.route(StreamReply::Nothing).is_none());
}

#[test]
fn close_drains_pending_and_blocks_new_registration() {
    let mut handle = Waiters::new();
    let addr = vec![0xcc_u8; 32];
    handle.register(addr.clone(), 7).expect("open");

    let drained = handle.close_and_drain();

    assert!(handle.is_closed());
    assert_eq!(drained.len(), 1);
    assert_eq!(drained[0].ticket, 7);
    match &drained[0].result {
        Err(StoreError::StreamReset) => {}
        other => panic!("expected StreamReset, got {other:?}"),
    }
    assert!(
        handle.register(addr, 8).is_err(),
        "registration on a closed handle must fail so the caller re-opens"
    );
    assert!(handle.close_and_drain().is_empty(), "closing twice hands out nothing");
}

/// A stream whose first incarnation dies under every waiter and whose later
/// ones answer each request with the probe chunk.
struct FlakyStreams {
    opens: u64,
    current: Option<(u64, Waiters)>,
    chunk: Chunk,
}

impl FlakyStreams {
    fn live(&mut self) {
        if !can_reuse(self.current.as_ref().map(|(_, w)| w.is_closed())) {
            self.opens += 1;
            self.current = Some((self.opens, Waiters::new()));
        }
    }

    fn get(&mut self, address: &Bytes32) -> Result<Chunk, StoreError> {
        let mut flow = GetFlow::new(*address);
        let mut action = GetAction::Acquire;
        let mut delivered: Vec<Delivery> = Vec::new();
        loop {
            action = match action {
                GetAction::Acquire => {
                    self.live();
                    flow.on_event(GetEvent::Acquired)
                }
                GetAction::RetireAndAcquire => {
                    let dead = self.opens;
                    if retire(self.current.as_ref().map(|(id, _)| *id), dead).is_none() {
                        self.current = None;
                    }
                    self.live();
                    flow.on_event(GetEvent::Acquired)
                }
                GetAction::Register => {
                    let (_, waiters) = self.current.as_mut().expect("a stream");
                    match waiters.register(address.bytes.to_vec(), 1) {
                        Ok(()) => flow.on_event(GetEvent::Registered),
                        Err(_) => flow.on_event(GetEvent::RegisterRefused),
                    }
                }
                GetAction::Send => {
                    let (id, waiters) = self.current.as_mut().expect("a stream");
                    if *id == 1 {
                        delivered = waiters.close_and_drain();
                    } else {
                        let reply = chunk_response(&self.chunk.address.bytes, &self.chunk.wire);
                        delivered.push(waiters.route(reply).expect("the waiter"));
                    }
                    flow.on_event(GetEvent::Sent)
                }
                GetAction::Wait => match delivered.pop() {
                    Some(d) => flow.on_event(GetEvent::Delivered(d.result)),
                    None => flow.on_event(GetEvent::Dropped),
                },
                GetAction::Return(chunk) => return Ok(chunk),
                GetAction::Fail(e) | GetAction::RetireAndFail(e) => return Err(e),
            };
        }
    }
}

#[test]
fn reopens_after_stream_death_and_recovers() {
    let chunk = sample_chunk(b"re-open probe");
    let address = chunk.address;
    let mut streams = FlakyStreams { opens: 0, current: None, chunk };

    // The retry is what re-issues after the first stream resets; the re-issue
    // lands on the re-opened healthy stream.
    let mut attempts = Attempts::first();
    let got = loop {
        match streams.get(&address) {
            Ok(chunk) => break chunk,
            Err(e) => {
                assert!(matches!(e, StoreError::StreamReset));
                assert!(attempts.failed(0) != Retry::GiveUp, "recovered after re-open");
            }
        }
    };
    assert_eq!(got.address, address);
    assert!(streams.opens >= 2, "the dead stream must have forced at least one re-open");
}

#[test]
fn one_retrieval_opens_three_streams_at_most() {
    let mut flow = GetFlow::new(Bytes32 { bytes: [1; 32] });
    for _ in 0..2 {
        assert!(matches!(flow.on_event(GetEvent::Acquired), GetAction::Register));
        assert!(matches!(
            flow.on_event(GetEvent::RegisterRefused),
            GetAction::RetireAndAcquire
        ));
    }
    assert!(matches!(flow.on_event(GetEvent::Acquired), GetAction::Register));
    assert!(matches!(flow.on_event(GetEvent::Registered), GetAction::Send));
    assert!(matches!(
        flow.on_event(GetEvent::SendRefused),
        GetAction::RetireAndFail(StoreError::StreamReset)
    ));
    assert!(matches!(
        flow.on_event(GetEvent::Acquired),
        GetAction::Fail(StoreError::StreamReset)
    ));
}

#[test]
fn a_delivered_result_decides_the_retrieval() {
    let chunk = sample_chunk(b"asked for");
    let waiting = || {
        let mut flow = GetFlow::new(chunk.address);
        flow.on_event(GetEvent::Acquired);
        flow.on_event(GetEvent::Registered);
        flow.on_event(GetEvent::Sent);
        flow
    };
    match waiting().on_event(GetEvent::Delivered(Ok(chunk.wire.clone()))) {
        GetAction::Return(c) => assert_eq!(c.wire, chunk.wire),
        _ => panic!("the chunk is returned"),
    }
    let other = sample_chunk(b"another");
    assert!(matches!(
        waiting().on_event(GetEvent::Delivered(Ok(other.wire))),
        GetAction::Fail(StoreError::Mismatch { .. })
    ));
    assert!(matches!(
        waiting().on_event(GetEvent::Delivered(Ok(vec![]))),
        GetAction::Fail(StoreError::NotFound(_))
    ));
    assert!(matches!(
        waiting().on_event(GetEvent::Delivered(Err(StoreError::NotFound("x".to_string())))),
        GetAction::Fail(StoreError::NotFound(_))
    ));
    assert!(matches!(
        waiting().on_event(GetEvent::Dropped),
        GetAction::Fail(StoreError::StreamReset)
    ));
    let mut flow = GetFlow::new(chunk.address);
    assert!(matches!(
        flow.on_event(GetEvent::OpenFailed(StoreError::Transport("down".to_string()))),
        GetAction::Fail(StoreError::Transport(_))
    ));
}

#[test]
fn stored_streams_are_reused_and_retired() {
    assert!(can_reuse(Some(false)));
    assert!(!can_reuse(Some(true)));
    assert!(!can_reuse(None));
    assert_eq!(retire(Some(3), 3), None);
    assert_eq!(retire(Some(4), 3), Some(4));
    assert_eq!(retire(None, 3), None);
}

#[test]
fn live_streams_are_opened_once() {
    let mut slot = StreamSlot::new();
    let mut opens = 0;
    let mut got = Vec::new();
    for _ in 0..5 {
        match slot.live_handle(false) {
            Acquire::Reuse(id) => got.push(id),
            Acquire::Open => {
                opens += 1;
                got.push(slot.opened(Ok(40 + opens)).expect("opened"));
            }
        }
    }
    assert_eq!(opens, 1);
    assert_eq!(got, vec![41; 5]);

    // A closed stream is replaced; a failed open leaves it in its place.
    assert_eq!(slot.live_handle(true), Acquire::Open);
    assert!(matches!(
        slot.opened(Err(StoreError::Transport("down".to_string()))),
        Err(StoreError::Transport(t)) if t == "down"
    ));
    assert_eq!(slot.live_handle(false), Acquire::Reuse(41));
    assert!(matches!(slot.opened(Ok(50)), Ok(50)));
    assert_eq!(slot.live_handle(false), Acquire::Reuse(50));
    slot.retire(41);
    assert_eq!(slot.live_handle(false), Acquire::Reuse(50));
    slot.retire(50);
    assert_eq!(slot.live_handle(false), Acquire::Open);
}
