//! Retries of a chunk's retrieval: a budget of attempts, and a backoff that
//! doubles from one to the next, with some jitter and a cap.

use vstd::arithmetic::power2::{lemma2_to64, lemma_pow2_strictly_increases, pow2};
use vstd::prelude::*;

verus! {

/// The number of attempts before an error is passed on.
pub const MAX_ATTEMPTS: u32 = 8;

/// The backoff after the first attempt, in nanoseconds.
pub const BACKOFF_BASE: u64 = 150_000_000;

/// The longest backoff, jitter and all, in nanoseconds.
pub const BACKOFF_CAP: u64 = 8_000_000_000;

/// A store whose retrievals are tried again when they fail.
#[derive(Clone, Debug)]
pub struct RetryingStore<G> {
    /// The store behind it.
    pub inner: G,
}

impl<G> RetryingStore<G> {
    /// Wraps `inner`.
    pub fn new(inner: G) -> (s: Self)
        ensures
            s.inner == inner,
    {
        RetryingStore { inner }
    }
}

/// The backoff after attempt `attempt`, counted from one, without jitter: the
/// base, doubled with each further attempt, and never above the cap.
pub open spec fn capped_backoff(attempt: nat) -> nat {
    let doublings = if attempt - 1 <= 16 {
        (attempt - 1) as nat
    } else {
        16
    };
    let scaled = BACKOFF_BASE as nat * pow2(doublings);
    if scaled <= BACKOFF_CAP {
        scaled
    } else {
        BACKOFF_CAP as nat
    }
}

/// The jitter on a backoff: the share `clock / 2^33` of it, to the nearest
/// nanosecond (the one below, where two are as near), where `clock` is the
/// sub-second part of the clock.
pub open spec fn jitter(capped: nat, clock: nat) -> nat {
    (capped * clock + 0xffff_ffff) / 0x2_0000_0000
}

/// The wait after attempt `attempt`: the backoff with its jitter, and never
/// above the cap.
pub open spec fn wait_after(attempt: nat, clock: nat) -> nat {
    let capped = capped_backoff(attempt);
    if capped + jitter(capped, clock) <= BACKOFF_CAP {
        capped + jitter(capped, clock)
    } else {
        BACKOFF_CAP as nat
    }
}

/// The backoff for the retry that follows attempt `attempt` (counted from
/// one), in nanoseconds, where the clock stands `clock` nanoseconds into its
/// second: at least the backoff without jitter, at most half of it more, and
/// never above the cap.
pub fn backoff_for(attempt: u32, clock: u32) -> (nanos: u64)
    requires
        attempt >= 1,
    ensures
        nanos == wait_after(attempt as nat, clock as nat),
        capped_backoff(attempt as nat) <= nanos,
        2 * nanos <= 3 * capped_backoff(attempt as nat),
        nanos <= BACKOFF_CAP,
{
    let shift: u32 = if attempt - 1 <= 16 {
        attempt - 1
    } else {
        16
    };
    let mut scaled: u64 = BACKOFF_BASE;
    let mut i: u32 = 0;
    proof {
        lemma2_to64();
    }
    while i < shift
        invariant
            i <= shift <= 16,
            scaled == BACKOFF_BASE * pow2(i as nat),
            pow2(16) == 0x10000,
            pow2(0) == 1,
        decreases shift - i,
    {
        proof {
            vstd::arithmetic::power2::lemma_pow2_unfold((i + 1) as nat);
            lemma_pow2_strictly_increases(i as nat, 16);
            assert(BACKOFF_BASE * pow2((i + 1) as nat) == 2 * (BACKOFF_BASE * pow2(i as nat)))
                by (nonlinear_arith)
                requires
                    pow2((i + 1) as nat) == 2 * pow2(i as nat),
            ;
            assert(pow2(i as nat) < 0x10000);
        }
        scaled = scaled * 2;
        i = i + 1;
    }
    let capped: u64 = if scaled <= BACKOFF_CAP {
        scaled
    } else {
        BACKOFF_CAP
    };
    proof {
        assert(BACKOFF_BASE <= capped) by {
            vstd::arithmetic::power2::lemma_pow2_pos(shift as nat);
            assert(BACKOFF_BASE * pow2(shift as nat) >= BACKOFF_BASE) by (nonlinear_arith)
                requires
                    pow2(shift as nat) >= 1,
            ;
        }
        assert(capped * clock <= 8_000_000_000 * 0xffff_ffff) by (nonlinear_arith)
            requires
                capped <= 8_000_000_000,
                clock <= 0xffff_ffff,
        ;
        assert(capped * clock <= capped * 0xffff_ffff) by (nonlinear_arith)
            requires
                clock <= 0xffff_ffff,
        ;
        assert(2 * jitter(capped as nat, clock as nat) <= capped);
    }
    let share: u128 = (capped as u128 * clock as u128 + 0xffff_ffff) / 0x2_0000_0000;
    let wait: u64 = capped + share as u64;
    if wait <= BACKOFF_CAP {
        wait
    } else {
        BACKOFF_CAP
    }
}

/// What to do after a failed attempt.
#[derive(Clone, Copy, Debug, PartialEq, Eq, Structural)]
pub enum Retry {
    /// Wait, then try again.
    After { nanos: u64 },
    /// Pass the error on.
    GiveUp,
}

/// The attempts made on one retrieval, the current one included.
#[derive(Clone, Copy, Debug, PartialEq, Eq, Structural)]
pub struct Attempts {
    pub attempt: u32,
}

impl Attempts {
    /// Between the first attempt and the last.
    pub open spec fn wf(self) -> bool {
        1 <= self.attempt <= MAX_ATTEMPTS
    }

    /// The first attempt.
    pub fn first() -> (a: Attempts)
        ensures
            a.wf(),
            a.attempt == 1,
    {
        Attempts { attempt: 1 }
    }

    /// What follows a failure of the current attempt: another one after its
    /// backoff, or, where it was the last, the error.
    pub fn failed(&mut self, clock: u32) -> (r: Retry)
        requires
            old(self).wf(),
        ensures
            final(self).wf(),
            (*final(self), r) == after_failure(*old(self), clock),
    {
        if self.attempt >= MAX_ATTEMPTS {
            return Retry::GiveUp;
        }
        let nanos: u64 = backoff_for(self.attempt, clock);
        self.attempt = self.attempt + 1;
        Retry::After { nanos }
    }
}

/// What follows a failure of an attempt, where the clock stands `clock`
/// nanoseconds into its second.
pub open spec fn after_failure(a: Attempts, clock: u32) -> (Attempts, Retry) {
    if a.attempt < MAX_ATTEMPTS {
        (
            Attempts { attempt: (a.attempt + 1) as u32 },
            Retry::After { nanos: wait_after(a.attempt as nat, clock as nat) as u64 },
        )
    } else {
        (a, Retry::GiveUp)
    }
}

/// The attempt under way after failures in a row, one at each of `clocks`.
pub open spec fn after_failures(clocks: Seq<u32>) -> Attempts
    decreases clocks.len(),
{
    if clocks.len() == 0 {
        Attempts { attempt: 1 }
    } else {
        after_failure(after_failures(clocks.drop_last()), clocks.last()).0
    }
}

/// The budget: the first seven failures in a row are each followed by another
/// attempt, whose success is still taken; the eighth passes the error on.
pub proof fn budget_is_exact(clocks: Seq<u32>)
    requires
        clocks.len() > 0,
    ensures
        after_failure(after_failures(clocks.drop_last()), clocks.last()).1 is After
            <==> clocks.len() < MAX_ATTEMPTS,
        clocks.len() < MAX_ATTEMPTS ==> after_failures(clocks).attempt == clocks.len() + 1,
{
    lemma_attempt_count(clocks.drop_last());
    lemma_attempt_count(clocks);
}

proof fn lemma_attempt_count(clocks: Seq<u32>)
    ensures
        after_failures(clocks).attempt == (if clocks.len() < MAX_ATTEMPTS {
            clocks.len() + 1
        } else {
            MAX_ATTEMPTS as nat
        }),
    decreases clocks.len(),
{
    if clocks.len() > 0 {
        lemma_attempt_count(clocks.drop_last());
    }
}

/// The time waited over failures in a row, in nanoseconds.
pub open spec fn waited(clocks: Seq<u32>) -> nat
    decreases clocks.len(),
{
    if clocks.len() == 0 {
        0
    } else {
        waited(clocks.drop_last()) + (match after_failure(
            after_failures(clocks.drop_last()),
            clocks.last(),
        ).1 {
            Retry::After { nanos } => nanos as nat,
            Retry::GiveUp => 0,
        })
    }
}

/// A chunk that is not there fails in bounded time: all the waits of one
/// retrieval together are at most 56 seconds.
pub proof fn waiting_is_bounded(clocks: Seq<u32>)
    ensures
        waited(clocks) <= 56_000_000_000,
{
    lemma_waited(clocks);
}

proof fn lemma_waited(clocks: Seq<u32>)
    ensures
        waited(clocks) <= BACKOFF_CAP * (if clocks.len() < MAX_ATTEMPTS {
            clocks.len()
        } else {
            (MAX_ATTEMPTS - 1) as nat
        }),
    decreases clocks.len(),
{
    if clocks.len() > 0 {
        let before = clocks.drop_last();
        lemma_waited(before);
        lemma_attempt_count(before);
    }
}

/// No wait is above the cap, whatever the clock says.
pub proof fn every_wait_is_capped(a: Attempts, clock: u32)
    ensures
        after_failure(a, clock).1 matches Retry::After { nanos } ==> nanos <= BACKOFF_CAP,
{
}

/// Later retries wait no less, before jitter, than earlier ones.
pub proof fn backoff_grows(a: nat, b: nat)
    requires
        1 <= a <= b,
    ensures
        BACKOFF_BASE <= capped_backoff(a) <= capped_backoff(b) <= BACKOFF_CAP,
{
    let x = if a - 1 <= 16 {
        (a - 1) as nat
    } else {
        16
    };
    let y = if b - 1 <= 16 {
        (b - 1) as nat
    } else {
        16
    };
    lemma2_to64();
    if x < y {
        lemma_pow2_strictly_increases(x, y);
    }
    if 0 < x {
        lemma_pow2_strictly_increases(0, x);
    }
    assert(BACKOFF_BASE * pow2(x) <= BACKOFF_BASE * pow2(y)) by (nonlinear_arith)
        requires
            pow2(x) <= pow2(y),
    ;
    assert(BACKOFF_BASE <= BACKOFF_BASE * pow2(x)) by (nonlinear_arith)
        requires
            pow2(x) >= 1,
    ;
}

/// The backoff starts at 150 milliseconds and doubles with each further attempt, up
/// to 8 seconds, where it stays.
pub proof fn backoff_doubles(attempt: nat)
    requires
        attempt >= 1,
    ensures
        capped_backoff(1) == 150_000_000,
        2 * capped_backoff(attempt) <= 8_000_000_000 ==> capped_backoff(attempt + 1) == 2
            * capped_backoff(attempt),
        2 * capped_backoff(attempt) > 8_000_000_000 ==> capped_backoff(attempt + 1)
            == 8_000_000_000,
{
    lemma2_to64();
    let n = (attempt - 1) as nat;
    if n < 16 {
        vstd::arithmetic::power2::lemma_pow2_unfold(n + 1);
        assert(BACKOFF_BASE * pow2(n + 1) == 2 * (BACKOFF_BASE * pow2(n))) by (nonlinear_arith)
            requires
                pow2(n + 1) == 2 * pow2(n),
        ;
    } else {
        assert(capped_backoff(attempt) == 8_000_000_000);
    }
}

/// The wait after an attempt is its backoff, made longer by the share of it that the
/// clock gives, two to the power of 33 parts to the whole: to the nearest nanosecond,
/// and to no more than 8 seconds in all.
pub proof fn waits_are_jittered(attempt: nat, clock: nat)
    requires
        attempt >= 1,
        clock <= u32::MAX,
    ensures
        ({
            let base = capped_backoff(attempt);
            let wait = wait_after(attempt, clock);
            &&& wait == 8_000_000_000 || {
                &&& wait < 8_000_000_000
                &&& -0x1_0000_0000 <= 0x2_0000_0000 * (wait - base) - base * clock <= 0x1_0000_0000
            }
            &&& wait == 8_000_000_000 ==> 0x2_0000_0000 * (8_000_000_000 - base) - base * clock
                <= 0x1_0000_0000
        }),
        wait_after(attempt, 0) == capped_backoff(attempt),
{
    let base = capped_backoff(attempt);
    backoff_grows(attempt, attempt);
    let x = base * clock + 0xffff_ffff;
    assert(x / 0x2_0000_0000 * 0x2_0000_0000 <= x < (x / 0x2_0000_0000 + 1) * 0x2_0000_0000);
}

/// Failures in a row: the first seven are each followed by the wait of their attempt
/// and another attempt, the eighth by the error.
pub proof fn seven_failures_are_retried(clocks: Seq<u32>)
    requires
        clocks.len() > 0,
    ensures
        clocks.len() < 8 ==> after_failure(after_failures(clocks.drop_last()), clocks.last()) == (
            Attempts { attempt: (clocks.len() + 1) as u32 },
            Retry::After { nanos: wait_after(clocks.len(), clocks.last() as nat) as u64 },
        ),
        clocks.len() >= 8 ==> after_failure(
            after_failures(clocks.drop_last()),
            clocks.last(),
        ).1 == Retry::GiveUp,
{
    lemma_attempt_count(clocks.drop_last());
}

/// The backoff that is waited for is that of the attempt and the clock, and never longer
/// than 8 seconds nor shorter than 150 milliseconds; the first attempt is number one.
pub proof fn backoff_is_waited_for(attempt: u32, clock: u32, nanos: u64, first: Attempts)
    requires
        attempt >= 1,
        call_ensures(backoff_for, (attempt, clock), nanos),
        call_ensures(Attempts::first, (), first),
    ensures
        nanos == wait_after(attempt as nat, clock as nat),
        150_000_000 <= nanos <= 8_000_000_000,
        first.attempt == 1,
{
    backoff_grows(attempt as nat, attempt as nat);
}

/// A failure is answered by another attempt, after the backoff, seven times, and then by
/// the error.
pub proof fn failure_is_answered(a: &mut Attempts, clock: u32, r: Retry)
    requires
        call_ensures(Attempts::failed, (a, clock), r),
    ensures
        old(a).attempt < 8 ==> final(a).attempt == old(a).attempt + 1 && r is After,
        old(a).attempt >= 8 ==> *final(a) == *old(a) && r == Retry::GiveUp,
{
}

} // verus!
