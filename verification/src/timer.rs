//! The 60 Hz clock that runs the delay and sound timers down.

use vstd::prelude::*;

verus! {

/// Timer ticks in a second.
pub const TICKS_PER_SECOND: u64 = 60;

/// Nanoseconds in a second.
pub const NANOS_PER_SECOND: u64 = 1_000_000_000;

/// A timer value after `ticks` ticks without a write: it counts down by one
/// per tick and stays at zero once it is there.
pub open spec fn decayed(value: u8, ticks: nat) -> u8 {
    if ticks >= value {
        0
    } else {
        (value - ticks) as u8
    }
}

/// A timer never rises by itself.
pub proof fn lemma_decay_never_rises(value: u8, ticks: nat)
    ensures
        0 <= decayed(value, ticks) <= value,
{
}

/// Waiting longer never leaves more on a timer.
pub proof fn lemma_decay_monotone(value: u8, earlier: nat, later: nat)
    requires
        earlier <= later,
    ensures
        decayed(value, later) <= decayed(value, earlier),
{
}

/// Ticks can be taken in any number of portions: the timer ends the same.
pub proof fn lemma_decay_composes(value: u8, first: nat, second: nat)
    ensures
        decayed(decayed(value, first), second) == decayed(value, first + second),
{
}

/// One tick takes exactly one off a running timer and leaves a stopped one.
pub proof fn lemma_decay_one_tick(value: u8)
    ensures
        decayed(value, 1) == if value == 0 {
            0
        } else {
            value - 1
        },
{
}

/// The number of whole ticks in `pending + nanos * 60` sixtieths of a
/// nanosecond.
pub open spec fn ticks_due(pending: int, nanos: int) -> int {
    (pending + nanos * TICKS_PER_SECOND as int) / (NANOS_PER_SECOND as int)
}

/// What is left of `pending + nanos * 60` sixtieths of a nanosecond once the
/// whole ticks are taken out.
pub open spec fn pending_after(pending: int, nanos: int) -> int {
    (pending + nanos * TICKS_PER_SECOND as int) % (NANOS_PER_SECOND as int)
}

/// Turns elapsed wall-clock time into timer ticks, at exactly sixty ticks a
/// second however the time is cut into intervals.
#[derive(Debug)]
pub struct TimerClock {
    /// Time not yet turned into a tick, in sixtieths of a nanosecond.
    pending: u64,
}

impl TimerClock {
    /// The time not yet turned into a tick, in sixtieths of a nanosecond.
    pub closed spec fn view(&self) -> int {
        self.pending as int
    }

    #[verifier::type_invariant]
    spec fn inv(self) -> bool {
        self.pending < NANOS_PER_SECOND
    }

    /// A clock with no time pending.
    pub fn new() -> (clock: TimerClock)
        ensures
            clock@ == 0,
    {
        TimerClock { pending: 0 }
    }

    /// Accounts for `nanos` nanoseconds that have passed and returns how many
    /// ticks fell due. What is left over is kept for the next call, so no
    /// time is lost between calls.
    pub fn advance(&mut self, nanos: u64) -> (ticks: u64)
        ensures
            ticks == ticks_due(old(self)@, nanos as int),
            final(self)@ == pending_after(old(self)@, nanos as int),
            0 <= old(self)@ < NANOS_PER_SECOND,
            0 <= final(self)@ < NANOS_PER_SECOND,
    {
        proof {
            use_type_invariant(&*self);
        }
        let total: u128 = self.pending as u128 + nanos as u128 * 60;
        let ticks: u128 = total / 1_000_000_000;
        let rest: u128 = total % 1_000_000_000;
        self.pending = rest as u64;
        ticks as u64
    }
}

/// Time cut into two intervals yields the ticks of the whole: none is lost
/// and none is counted twice.
pub proof fn lemma_ticks_add_up(pending: int, first: int, second: int)
    requires
        0 <= pending < NANOS_PER_SECOND,
        0 <= first,
        0 <= second,
    ensures
        ticks_due(pending, first) + ticks_due(pending_after(pending, first), second) == ticks_due(
            pending,
            first + second,
        ),
        pending_after(pending_after(pending, first), second) == pending_after(
            pending,
            first + second,
        ),
{
    let a = pending + first * 60;
    let b = second * 60;
    let d = NANOS_PER_SECOND as int;
    assert(a == d * (a / d) + a % d);
    assert((a % d + b) == d * ((a % d + b) / d) + (a % d + b) % d);
    assert(a + b == d * ((a + b) / d) + (a + b) % d);
    assert(pending + (first + second) * 60 == a + b);
    vstd::arithmetic::div_mod::lemma_fundamental_div_mod_converse(
        a + b,
        d,
        a / d + (a % d + b) / d,
        (a % d + b) % d,
    );
}

} // verus!
