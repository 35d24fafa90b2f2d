use vstd::prelude::*;

use crate::Verdict;

verus! {

/// Fixed-point scale applied to `tokens` (a power of two).
pub const SCALE: u64 = 1024;

pub const NS_PER_SEC: u64 = 1_000_000_000;

/// A rate of `UNLIMITED` bytes per second bypasses the bucket.
pub const UNLIMITED: u32 = 0xFFFF_FFFF;

/// Rate-limit state of one port key: policy, token bucket and counters.
#[derive(Clone, Copy, Debug, PartialEq, Eq, Structural)]
pub struct RateLimit {
    /// Permitted steady rate in bytes per second.
    pub bps: u32,
    /// Bucket capacity in bytes.
    pub burst: u32,
    /// Bucket level in bytes, multiplied by `SCALE`.
    pub tokens: u64,
    /// Timestamp in nanoseconds of the latest refill.
    pub last_refill_ns: u64,
    pub passed_bytes: u64,
    pub dropped_bytes: u64,
}

/// Tokens (scaled) that `bps` bytes per second earn in `elapsed` nanoseconds.
pub open spec fn refill_amount(bps: u32, elapsed: int) -> int {
    (bps as int * elapsed * SCALE as int) / NS_PER_SEC as int
}

impl RateLimit {
    /// Capacity of the bucket in scaled tokens.
    pub open spec fn capacity(self) -> int {
        self.burst as int * SCALE as int
    }

    /// The bucket never holds more than its capacity.
    pub open spec fn wf(self) -> bool {
        self.tokens as int <= self.capacity()
    }

    /// Nanoseconds since the latest refill, zero if the clock went back.
    pub open spec fn elapsed_since(self, now: u64) -> int {
        if now > self.last_refill_ns {
            now - self.last_refill_ns
        } else {
            0
        }
    }

    /// State after refilling the bucket at time `now`.
    pub open spec fn refilled(self, now: u64) -> RateLimit {
        let level = self.tokens as int + refill_amount(self.bps, self.elapsed_since(now));
        RateLimit {
            tokens: (if level <= self.capacity() { level } else { self.capacity() }) as u64,
            last_refill_ns: if now > self.last_refill_ns { now } else { self.last_refill_ns },
            ..self
        }
    }

    /// State and verdict after offering a frame of `len` bytes at time `now`.
    pub open spec fn offer_spec(self, now: u64, len: u64) -> (RateLimit, Verdict) {
        if self.bps == UNLIMITED {
            (self, Verdict::Accept)
        } else if self.bps == 0 {
            (RateLimit { dropped_bytes: self.dropped_bytes.saturating_add(len), ..self }, Verdict::Drop)
        } else {
            let r = self.refilled(now);
            if r.tokens as int >= len as int * SCALE as int {
                (
                    RateLimit {
                        tokens: (r.tokens - len * SCALE) as u64,
                        passed_bytes: r.passed_bytes.saturating_add(len),
                        ..r
                    },
                    Verdict::Accept,
                )
            } else {
                (RateLimit { dropped_bytes: r.dropped_bytes.saturating_add(len), ..r }, Verdict::Drop)
            }
        }
    }

    /// The entry under a new policy: bucket level clamped to the new capacity,
    /// timestamps and counters kept.
    pub open spec fn with_policy_spec(self, bps: u32, burst: u32) -> RateLimit {
        let cap = burst as int * SCALE as int;
        RateLimit {
            bps,
            burst,
            tokens: (if self.tokens as int <= cap { self.tokens as int } else { cap }) as u64,
            ..self
        }
    }

    /// A fresh entry: full bucket, zero counters.
    pub open spec fn new_spec(bps: u32, burst: u32) -> RateLimit {
        RateLimit {
            bps,
            burst,
            tokens: (burst as int * SCALE as int) as u64,
            last_refill_ns: 0,
            passed_bytes: 0,
            dropped_bytes: 0,
        }
    }

    /// A fresh entry with a full bucket and zero counters.
    pub fn new(bps: u32, burst: u32) -> (r: RateLimit)
        ensures
            r == RateLimit::new_spec(bps, burst),
            r.wf(),
    {
        RateLimit {
            bps,
            burst,
            tokens: burst as u64 * SCALE,
            last_refill_ns: 0,
            passed_bytes: 0,
            dropped_bytes: 0,
        }
    }

    /// This entry under the policy `{bps, burst}`.
    pub fn with_policy(&self, bps: u32, burst: u32) -> (r: RateLimit)
        ensures
            r == self.with_policy_spec(bps, burst),
            r.wf(),
    {
        let cap = burst as u64 * SCALE;
        RateLimit {
            bps,
            burst,
            tokens: if self.tokens <= cap { self.tokens } else { cap },
            ..*self
        }
    }

    /// Refills the bucket for the time passed since the latest refill.
    pub fn refill(&mut self, now: u64)
        requires
            old(self).wf(),
        ensures
            *final(self) == old(self).refilled(now),
            final(self).wf(),
            final(self).last_refill_ns >= old(self).last_refill_ns,
    {
        let elapsed: u64 = if now > self.last_refill_ns { now - self.last_refill_ns } else { 0 };
        proof {
            assert(self.bps as int * elapsed as int <= 0xFFFF_FFFFint * 0xFFFF_FFFF_FFFF_FFFFint)
                by (nonlinear_arith)
                requires
                    self.bps <= 0xFFFF_FFFFu32,
                    elapsed <= 0xFFFF_FFFF_FFFF_FFFFu64,
            ;
        }
        let product: u128 = self.bps as u128 * elapsed as u128;
        let added: u128 = product * (SCALE as u128) / (NS_PER_SEC as u128);
        let cap: u64 = self.burst as u64 * SCALE;
        let level: u128 = self.tokens as u128 + added;
        self.tokens = if level <= cap as u128 { level as u64 } else { cap };
        if now > self.last_refill_ns {
            self.last_refill_ns = now;
        }
    }

    /// Offers a frame of `len` bytes at time `now`: the unlimited rate
    /// accepts untouched, the zero rate drops, any other rate refills the
    /// bucket and accepts when it holds `len` bytes' worth of tokens.
    pub fn offer(&mut self, now: u64, len: u64) -> (v: Verdict)
        requires
            old(self).wf(),
        ensures
            (*final(self), v) == old(self).offer_spec(now, len),
            final(self).wf(),
            final(self).last_refill_ns >= old(self).last_refill_ns,
            final(self).bps == old(self).bps,
            final(self).burst == old(self).burst,
    {
        if self.bps == UNLIMITED {
            return Verdict::Accept;
        }
        if self.bps == 0 {
            self.dropped_bytes = self.dropped_bytes.saturating_add(len);
            return Verdict::Drop;
        }
        self.refill(now);
        let need: u128 = len as u128 * SCALE as u128;
        if self.tokens as u128 >= need {
            self.tokens = self.tokens - need as u64;
            self.passed_bytes = self.passed_bytes.saturating_add(len);
            Verdict::Accept
        } else {
            self.dropped_bytes = self.dropped_bytes.saturating_add(len);
            Verdict::Drop
        }
    }
}

/// A clock that went back refills nothing and leaves the timestamp as it was.
pub proof fn lemma_clock_regression(e: RateLimit, now: u64)
    requires
        e.wf(),
        now < e.last_refill_ns,
    ensures
        e.elapsed_since(now) == 0,
        e.refilled(now) == e,
{
    assert(refill_amount(e.bps, 0) == 0) by (nonlinear_arith);
}

} // verus!
