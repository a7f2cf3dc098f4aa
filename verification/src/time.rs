//! Spans of time, clock readings, and the waiting times derived from them.

use vstd::prelude::*;

verus! {

/// The longest representable span, in nanoseconds.
pub const MAX_DURATION_NANOS: u128 = 18446744073709551615999999999;

/// A span of time, counted in nanoseconds.
#[derive(Debug, Clone, Copy, PartialEq, Eq)]
pub struct Duration {
    nanos: u128,
}

impl View for Duration {
    type V = nat;

    closed spec fn view(&self) -> nat {
        self.nanos as nat
    }
}

impl Duration {
    #[verifier::type_invariant]
    spec fn in_range(self) -> bool {
        self.nanos <= MAX_DURATION_NANOS
    }

    /// The empty span.
    pub fn zero() -> (r: Self)
        ensures
            r@ == 0,
    {
        Duration { nanos: 0 }
    }

    /// A span of whole seconds.
    pub fn from_secs(secs: u64) -> (r: Self)
        ensures
            r@ == secs * 1_000_000_000,
    {
        Duration { nanos: (secs as u128) * 1_000_000_000 }
    }

    /// A span of whole milliseconds.
    pub fn from_millis(millis: u64) -> (r: Self)
        ensures
            r@ == millis * 1_000_000,
    {
        Duration { nanos: (millis as u128) * 1_000_000 }
    }

    /// A span of nanoseconds.
    pub fn from_nanos(nanos: u64) -> (r: Self)
        ensures
            r@ == nanos,
    {
        Duration { nanos: nanos as u128 }
    }

    /// The span in nanoseconds.
    pub fn as_nanos(&self) -> (r: u128)
        ensures
            r == self@,
            r <= MAX_DURATION_NANOS,
    {
        proof {
            use_type_invariant(self);
        }
        self.nanos
    }

    /// The span in whole milliseconds.
    pub fn as_millis(&self) -> (r: u128)
        ensures
            r == self@ / 1_000_000,
    {
        self.nanos / 1_000_000
    }

    /// Whether the span is empty.
    pub fn is_zero(&self) -> (r: bool)
        ensures
            r == (self@ == 0),
    {
        self.nanos == 0
    }

    /// Whether this span is shorter than the other.
    pub fn shorter_than(&self, other: &Duration) -> (r: bool)
        ensures
            r == (self@ < other@),
    {
        self.nanos < other.nanos
    }

    /// The sum of two spans.
    pub fn plus(&self, other: &Duration) -> (r: Self)
        requires
            self@ + other@ <= MAX_DURATION_NANOS,
        ensures
            r@ == self@ + other@,
    {
        Duration { nanos: self.nanos + other.nanos }
    }

    /// Twice the span.
    pub fn doubled(&self) -> (r: Self)
        requires
            2 * self@ <= MAX_DURATION_NANOS,
        ensures
            r@ == 2 * self@,
    {
        Duration { nanos: self.nanos * 2 }
    }

    /// Several times the span.
    pub fn times(&self, n: u32) -> (r: Self)
        requires
            n * self@ <= MAX_DURATION_NANOS,
        ensures
            r@ == n * self@,
    {
        proof {
            use_type_invariant(self);
        }
        Duration { nanos: (n as u128) * self.nanos }
    }

    /// What is left of this span after the other has passed, empty if none.
    pub fn saturating_sub(&self, other: &Duration) -> (r: Self)
        ensures
            r@ == if self@ >= other@ {
                (self@ - other@) as nat
            } else {
                0
            },
    {
        proof {
            use_type_invariant(self);
        }
        if self.nanos >= other.nanos {
            Duration { nanos: self.nanos - other.nanos }
        } else {
            Duration { nanos: 0 }
        }
    }

    /// The span divided into equal parts, rounded down.
    pub fn divided_by(&self, parts: u32) -> (r: Self)
        requires
            parts > 0,
        ensures
            r@ == self@ / (parts as nat),
    {
        proof {
            use_type_invariant(self);
            assert(self.nanos / (parts as u128) <= self.nanos) by (nonlinear_arith)
                requires
                    parts > 0,
            ;
        }
        Duration { nanos: self.nanos / (parts as u128) }
    }

    /// The shorter of two spans.
    pub fn shorter(&self, other: &Duration) -> (r: Self)
        ensures
            r@ == if self@ <= other@ {
                self@
            } else {
                other@
            },
    {
        if self.nanos <= other.nanos {
            *self
        } else {
            *other
        }
    }

    /// The longer of two spans.
    pub fn longer(&self, other: &Duration) -> (r: Self)
        ensures
            r@ == if self@ >= other@ {
                self@
            } else {
                other@
            },
    {
        if self.nanos >= other.nanos {
            *self
        } else {
            *other
        }
    }
}

/// A reading of a clock that never runs backwards, in nanoseconds since the
/// clock's origin.
#[derive(Debug, Clone, Copy, PartialEq, Eq, Structural)]
pub struct Instant {
    pub nanos: u64,
}

impl Instant {
    /// The time from `earlier` to this reading, empty if `earlier` is later.
    pub fn since(&self, earlier: &Instant) -> (r: Duration)
        ensures
            r@ == if self.nanos >= earlier.nanos {
                (self.nanos - earlier.nanos) as nat
            } else {
                0
            },
    {
        if self.nanos >= earlier.nanos {
            Duration::from_nanos(self.nanos - earlier.nanos)
        } else {
            Duration::zero()
        }
    }
}

/// A span doubled `times` times.
pub open spec fn doubled_span(base: nat, times: nat) -> nat
    decreases times,
{
    if times == 0 {
        base
    } else {
        2 * doubled_span(base, (times - 1) as nat)
    }
}

/// How often a waiting time is doubled in a round: the first two rounds wait
/// the base time, and rounds past `limit` count as `limit`.
pub open spec fn backoff_doublings(round: u64, limit: u64) -> nat {
    let power = if round <= limit {
        round
    } else {
        limit
    };
    if power > 2 {
        (power - 2) as nat
    } else {
        0
    }
}

proof fn lemma_doubled_span_grows(base: nat, i: nat, j: nat)
    requires
        i <= j,
    ensures
        doubled_span(base, i) <= doubled_span(base, j),
    decreases j,
{
    if i < j {
        lemma_doubled_span_grows(base, i, (j - 1) as nat);
    }
}

/// Exponential backoff: `base` scaled by 2^(round-2), with `round` capped at
/// `limit`.
pub fn backoff(base: Duration, round: u64, limit: u64) -> (r: Duration)
    requires
        doubled_span(base@, backoff_doublings(round, limit)) <= MAX_DURATION_NANOS,
    ensures
        r@ == doubled_span(base@, backoff_doublings(round, limit)),
{
    let mut power: u64 = if round <= limit {
        round
    } else {
        limit
    };
    let mut current = base;
    let ghost steps = backoff_doublings(round, limit);
    let ghost mut done: nat = 0;
    while power > 2
        invariant
            done <= steps,
            power > 2 ==> steps - done == power - 2,
            power <= 2 ==> done == steps,
            current@ == doubled_span(base@, done),
            doubled_span(base@, steps) <= MAX_DURATION_NANOS,
        decreases power,
    {
        proof {
            lemma_doubled_span_grows(base@, done + 1, steps);
            done = done + 1;
        }
        current = current.doubled();
        power -= 1;
    }
    current
}

/// Whether doubling past `times` doublings stays within range, where doubling
/// stops once the span is over the cap.
pub open spec fn doubling_fits(base: nat, times: nat, cap: nat) -> bool {
    doubled_span(base, times) <= cap ==> 2 * doubled_span(base, times) <= MAX_DURATION_NANOS
}

/// Exponential backoff that never exceeds `cap`.
pub fn capped_exponential_backoff(base: Duration, round: u64, limit: u64, cap: Duration) -> (r:
    Duration)
    requires
        forall|k: nat|
            k < backoff_doublings(round, limit) ==> #[trigger] doubling_fits(base@, k, cap@),
    ensures
        r@ == if doubled_span(base@, backoff_doublings(round, limit)) <= cap@ {
            doubled_span(base@, backoff_doublings(round, limit))
        } else {
            cap@
        },
{
    let mut power: u64 = if round <= limit {
        round
    } else {
        limit
    };
    let mut current = base;
    let ghost steps = backoff_doublings(round, limit);
    let ghost mut done: nat = 0;
    while power > 2
        invariant
            done <= steps,
            steps == backoff_doublings(round, limit),
            power > 2 ==> steps - done == power - 2,
            power <= 2 ==> done == steps,
            current@ == doubled_span(base@, done),
            forall|k: nat| k < steps ==> #[trigger] doubling_fits(base@, k, cap@),
        decreases power,
    {
        if cap.shorter_than(&current) {
            proof {
                lemma_doubled_span_grows(base@, done, steps);
            }
            return cap;
        }
        assert(doubling_fits(base@, done, cap@));
        current = current.doubled();
        proof {
            done = done + 1;
        }
        power -= 1;
    }
    current.shorter(&cap)
}

/// `rand::random` at `u64`: one number drawn from the thread's generator.
/// Nothing is claimed of which number it is.
#[verifier::external_body]
fn random_u64() -> (r: u64) {
    rand::random::<u64>()
}

/// The part of a span, in nanoseconds, below which the random extra of a
/// timer lies.
pub open spec fn jitter_bound(min: nat) -> nat {
    min % 0x1_0000_0000_0000_0000
}

/// The timer that a drawn number gives: `min` plus the number reduced below
/// the jitter bound.
pub fn jittered_duration(min: Duration, drawn: u64) -> (r: Duration)
    requires
        min@ != 0 ==> jitter_bound(min@) != 0,
        min@ + jitter_bound(min@) <= MAX_DURATION_NANOS,
    ensures
        min@ == 0 ==> r@ == 0,
        min@ != 0 ==> r@ == min@ + (drawn as nat) % jitter_bound(min@),
{
    if min.is_zero() {
        return Duration::zero();
    }
    let bound: u64 = (min.as_nanos() % 0x1_0000_0000_0000_0000) as u64;
    let extra: u64 = drawn % bound;
    min.plus(&Duration::from_nanos(extra))
}

/// Returns a random duration in `[min, 2*min)`, which randomizes election and
/// heartbeat timers.
pub fn random_duration(min: Duration) -> (r: Duration)
    requires
        min@ != 0 ==> jitter_bound(min@) != 0,
        min@ + jitter_bound(min@) <= MAX_DURATION_NANOS,
    ensures
        min@ == 0 ==> r@ == 0,
        min@ != 0 ==> min@ <= r@ < min@ + jitter_bound(min@),
        min@ != 0 ==> min@ <= r@ < 2 * min@,
{
    let drawn: u64 = random_u64();
    proof {
        if min@ != 0 {
            assert(0 <= (drawn as nat) % jitter_bound(min@) < jitter_bound(min@));
            assert(jitter_bound(min@) <= min@);
        }
    }
    jittered_duration(min, drawn)
}

} // verus!
