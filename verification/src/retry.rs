//! Shared retry timing for external boundaries.

use std::time::Duration;

use vstd::arithmetic::power2::*;
use vstd::prelude::*;

use crate::outside::{duration_nanos, max_duration_nanos, since_epoch, system_now};

verus! {

/// Exponential retry delay with bounded jitter.
#[derive(Debug)]
pub struct Backoff {
    pub attempt: u32,
    pub base: Duration,
    pub cap: Duration,
}

/// What a `Backoff` says, with times in nanoseconds.
pub struct BackoffView {
    pub attempt: nat,
    pub base: nat,
    pub cap: nat,
}

impl View for Backoff {
    type V = BackoffView;

    open spec fn view(&self) -> BackoffView {
        BackoffView {
            attempt: self.attempt as nat,
            base: duration_nanos(self.base),
            cap: duration_nanos(self.cap),
        }
    }
}

impl Clone for Backoff {
    fn clone(&self) -> (copy: Self)
        ensures
            copy == *self,
    {
        Backoff { attempt: self.attempt, base: self.base, cap: self.cap }
    }
}

/// The smaller of two numbers.
pub open spec fn least(a: nat, b: nat) -> nat {
    if a <= b {
        a
    } else {
        b
    }
}

/// The greater of two numbers.
pub open spec fn greatest(a: nat, b: nat) -> nat {
    if a >= b {
        a
    } else {
        b
    }
}

/// A delay in nanoseconds, or the longest there is.
pub open spec fn saturated(nanos: nat) -> nat {
    least(nanos, max_duration_nanos())
}

impl BackoffView {
    /// The delay of the next attempt: the base, doubled for each attempt before, up to the cap.
    pub open spec fn exponential(self) -> nat {
        least(saturated(self.base * pow2(least(self.attempt, 31))), self.cap)
    }

    /// The least delay of the next attempt: a provider may ask for more than the backoff does.
    pub open spec fn floor(self, retry_after: Option<nat>) -> nat {
        match retry_after {
            Some(asked) => greatest(asked, self.exponential()),
            None => self.exponential(),
        }
    }

    /// The delay of the next attempt, with up to a quarter more: `nanos` thousandths of a quarter.
    pub open spec fn delay(self, retry_after: Option<nat>, nanos: nat) -> nat {
        let floor = self.floor(retry_after);
        least(
            saturated(floor + floor / 4 * (nanos % 1_000) / 1_000),
            greatest(self.cap, floor),
        )
    }

    /// A quarter of the least delay can be multiplied by the thousandths that `nanos` gives without
    /// exceeding the longest delay.
    pub open spec fn in_range(self, retry_after: Option<nat>, nanos: nat) -> bool {
        self.floor(retry_after) / 4 * (nanos % 1_000) <= max_duration_nanos()
    }

    /// After one more attempt.
    pub open spec fn advanced(self) -> BackoffView {
        BackoffView {
            attempt: if self.attempt < u32::MAX {
                self.attempt + 1
            } else {
                self.attempt
            },
            ..self
        }
    }
}

/// The nanoseconds that an optional duration spans.
pub open spec fn optional_nanos(duration: Option<Duration>) -> Option<nat> {
    match duration {
        Some(duration) => Some(duration_nanos(duration)),
        None => None,
    }
}

/// The power of two.
fn power(exponent: u32) -> (value: u128)
    requires
        exponent <= 31,
    ensures
        value == pow2(exponent as nat),
        value <= 0x8000_0000,
{
    proof {
        lemma2_to64();
        lemma_small_power(exponent as nat);
    }
    let mut value: u128 = 1;
    for i in 0..exponent
        invariant
            exponent <= 31,
            value == pow2(i as nat),
            value <= 0x8000_0000,
    {
        proof {
            lemma_pow2_unfold((i + 1) as nat);
            lemma2_to64();
            lemma_small_power((i + 1) as nat);
        }
        value = value * 2;
    }
    value
}

/// Powers of two up to the largest that is used.
proof fn lemma_small_power(exponent: nat)
    requires
        exponent <= 31,
    ensures
        pow2(exponent) <= 0x8000_0000,
{
    lemma2_to64();
    if exponent < 31 {
        lemma_pow2_strictly_increases(exponent, 31);
    }
}

/// A duration of that many nanoseconds.
fn from_nanos(nanos: u128) -> (duration: Duration)
    requires
        nanos <= max_duration_nanos(),
    ensures
        duration_nanos(duration) == nanos,
{
    Duration::new((nanos / 1_000_000_000) as u64, (nanos % 1_000_000_000) as u32)
}

impl Backoff {
    /// Start a backoff sequence.
    #[must_use]
    pub fn new(base: Duration, cap: Duration) -> (backoff: Backoff)
        ensures
            backoff == (Backoff { attempt: 0, base, cap }),
    {
        Backoff { attempt: 0, base, cap }
    }

    /// Return the next delay, honoring a provider-supplied minimum. The jitter follows the system
    /// clock, which may give as many as 999 thousandths.
    pub fn next(&mut self, retry_after: Option<Duration>) -> (delay: Duration)
        requires
            old(self)@.in_range(optional_nanos(retry_after), 999),
        ensures
            exists|nanos: nat|
                nanos < 1_000_000_000 && duration_nanos(delay) == #[trigger] old(self)@.delay(
                    optional_nanos(retry_after),
                    nanos,
                ),
            final(self)@ == old(self)@.advanced(),
    {
        let nanos: u32 = match since_epoch(&system_now()) {
            Some(since) => (since.as_nanos() % 1_000_000_000) as u32,
            None => 0,
        };
        proof {
            let quarter = self@.floor(optional_nanos(retry_after)) / 4;
            let part = nanos as nat % 1_000;
            assert(quarter * part <= quarter * 999) by (nonlinear_arith)
                requires
                    part <= 999,
            ;
        }
        self.next_with(retry_after, nanos)
    }

    /// Return the next delay, honoring a provider-supplied minimum, with the jitter that `nanos`
    /// gives.
    pub fn next_with(&mut self, retry_after: Option<Duration>, nanos: u32) -> (delay: Duration)
        requires
            old(self)@.in_range(optional_nanos(retry_after), nanos as nat),
        ensures
            duration_nanos(delay) == old(self)@.delay(optional_nanos(retry_after), nanos as nat),
            final(self)@ == old(self)@.advanced(),
    {
        let longest: u128 = 18_446_744_073_709_551_615 * 1_000_000_000 + 999_999_999;
        let base: u128 = self.base.as_nanos();
        let cap: u128 = self.cap.as_nanos();
        let multiplier: u128 = power(
            if self.attempt < 31 {
                self.attempt
            } else {
                31
            },
        );
        assert(base * multiplier <= max_duration_nanos() * 0x8000_0000) by (nonlinear_arith)
            requires
                base <= max_duration_nanos(),
                multiplier <= 0x8000_0000,
        ;
        let grown: u128 = base * multiplier;
        let bounded: u128 = if grown <= longest {
            grown
        } else {
            longest
        };
        let exponential: u128 = if bounded <= cap {
            bounded
        } else {
            cap
        };
        if self.attempt < u32::MAX {
            self.attempt = self.attempt + 1;
        }
        let floor: u128 = match retry_after {
            Some(asked) => if asked.as_nanos() >= exponential {
                asked.as_nanos()
            } else {
                exponential
            },
            None => exponential,
        };
        let part: u128 = (nanos % 1_000) as u128;
        let extra: u128 = floor / 4 * part / 1_000;
        let longer: u128 = if floor + extra <= longest {
            floor + extra
        } else {
            longest
        };
        let limit: u128 = if cap >= floor {
            cap
        } else {
            floor
        };
        from_nanos(
            if longer <= limit {
                longer
            } else {
                limit
            },
        )
    }
}

// ---------------------------------------------------------------------------
// Laws
// ---------------------------------------------------------------------------
/// The delay is never shorter than what the provider asks for nor than the exponential delay, is
/// at most a quarter longer than the greater of the two, and exceeds the cap only where the
/// provider asks for more than the cap.
pub proof fn delays_are_bounded(backoff: BackoffView, retry_after: Option<nat>, nanos: nat)
    requires
        backoff.cap <= max_duration_nanos(),
        retry_after matches Some(asked) ==> asked <= max_duration_nanos(),
    ensures
        backoff.delay(retry_after, nanos) >= backoff.exponential(),
        retry_after matches Some(asked) ==> backoff.delay(retry_after, nanos) >= asked,
        backoff.delay(retry_after, nanos) <= backoff.floor(retry_after) + backoff.floor(retry_after)
            / 4,
        backoff.delay(retry_after, nanos) <= greatest(backoff.cap, backoff.floor(retry_after)),
        retry_after is None ==> backoff.delay(retry_after, nanos) <= backoff.cap,
{
    let quarter = backoff.floor(retry_after) / 4;
    let part = nanos % 1_000;
    assert(quarter * part / 1_000 <= quarter) by (nonlinear_arith)
        requires
            part < 1_000,
    ;
}

/// The exponential delay starts at the base and doubles with each attempt, until it is capped.
pub proof fn delays_double(backoff: BackoffView)
    requires
        backoff.cap <= max_duration_nanos(),
    ensures
        backoff.attempt == 0 ==> backoff.exponential() == least(backoff.base, backoff.cap),
        backoff.attempt < 31 ==> backoff.advanced().exponential() == least(
            2 * backoff.exponential(),
            backoff.cap,
        ),
        backoff.attempt >= 31 ==> backoff.advanced().exponential() == backoff.exponential(),
{
    lemma2_to64();
    if backoff.attempt < 31 {
        lemma_pow2_unfold(backoff.attempt + 1);
        let base = backoff.base;
        let power = pow2(backoff.attempt);
        assert(base * (2 * power) == 2 * (base * power)) by (nonlinear_arith);
        assert(base * 1 == base) by (nonlinear_arith);
    }
}

/// The exponential delay is the base doubled once for each attempt, and the cap where that is more.
/// The least delay is the greater of this and of what the provider asks for. To this comes a
/// quarter of it, in as many thousandths as the clock gives; the cap ends the jitter, and where the
/// least delay is above the cap there is none.
pub proof fn delays_follow_attempt_and_jitter(
    backoff: BackoffView,
    retry_after: Option<nat>,
    nanos: nat,
)
    requires
        backoff.cap <= max_duration_nanos(),
        retry_after matches Some(asked) ==> asked <= max_duration_nanos(),
    ensures
        ({
            let doubled = backoff.base * pow2(backoff.attempt);
            let most = backoff.base * pow2(31);
            let exponential = backoff.exponential();
            let floor = backoff.floor(retry_after);
            let jittered = floor + ((floor / 4) * (nanos % 1_000)) / 1_000;
            let delay = backoff.delay(retry_after, nanos);
            &&& backoff.attempt <= 31 && doubled <= backoff.cap ==> exponential == doubled
            &&& backoff.attempt <= 31 && doubled > backoff.cap ==> exponential == backoff.cap
            &&& backoff.attempt > 31 && most <= backoff.cap ==> exponential == most
            &&& backoff.attempt > 31 && most > backoff.cap ==> exponential == backoff.cap
            &&& retry_after is None ==> floor == exponential
            &&& retry_after matches Some(asked) ==> {
                &&& asked >= exponential ==> floor == asked
                &&& asked < exponential ==> floor == exponential
            }
            &&& jittered <= backoff.cap ==> delay == jittered
            &&& jittered > backoff.cap && floor <= backoff.cap ==> delay == backoff.cap
            &&& floor > backoff.cap ==> delay == floor
        }),
{
}

/// What the provider asks for counts in full, and asking for nothing is no delay of zero. A delay
/// is in range exactly when a quarter of its least, in thousandths, is no more than the longest.
pub proof fn requests_of_the_provider_count(
    backoff: BackoffView,
    asked: Option<Duration>,
    nanos: nat,
)
    ensures
        asked is None <==> optional_nanos(asked) is None,
        asked matches Some(duration) ==> optional_nanos(asked) == Some(duration_nanos(duration)),
        backoff.in_range(optional_nanos(asked), nanos) <==> (backoff.floor(optional_nanos(asked))
            / 4) * (nanos % 1_000) <= max_duration_nanos(),
        max_duration_nanos() == 18_446_744_073_709_551_615_999_999_999,
{
}

/// Each attempt is counted, up to the largest count there is, and changes nothing else.
pub proof fn attempts_are_counted(backoff: BackoffView)
    ensures
        backoff.advanced().base == backoff.base,
        backoff.advanced().cap == backoff.cap,
        backoff.attempt < 0xffff_ffff ==> backoff.advanced().attempt == backoff.attempt + 1,
        backoff.attempt >= 0xffff_ffff ==> backoff.advanced().attempt == backoff.attempt,
{
}

} // verus!
