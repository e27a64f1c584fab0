//! A token bucket that limits the bytes per second of one task.

use vstd::prelude::*;

verus! {

/// Token bucket whose capacity and refill rate are both `rate` bytes per
/// second. Times are milliseconds on a clock the caller chooses.
#[derive(Debug, Clone, Copy, PartialEq, Eq, Structural)]
pub struct SpeedLimiter {
    pub rate: u64,
    pub tokens: u64,
    pub last_ms: u64,
}

pub open spec fn max_int(a: int, b: int) -> int {
    if a >= b { a } else { b }
}

pub open spec fn min_int(a: int, b: int) -> int {
    if a <= b { a } else { b }
}

impl SpeedLimiter {
    pub open spec fn wf(&self) -> bool {
        self.rate > 0 && self.tokens <= self.rate
    }

    /// The moment a request made at `now` is considered: not before the last
    /// grant.
    pub open spec fn base(&self, now: u64) -> int {
        max_int(now as int, self.last_ms as int)
    }

    /// Tokens available at `base(now)`, refilled at `rate` per second and
    /// capped at `rate`.
    pub open spec fn refilled(&self, now: u64) -> int {
        min_int(self.rate as int, self.tokens + (self.rate * (self.base(now) - self.last_ms)) / 1000)
    }

    /// Milliseconds to sleep so that the missing tokens have been refilled.
    pub open spec fn sleep_for(&self, n: u64, now: u64) -> int {
        if self.refilled(now) >= n {
            0
        } else {
            ((n - self.refilled(now)) * 1000 + self.rate - 1) / (self.rate as int)
        }
    }

    /// The bucket after granting `n` bytes requested at `now`.
    pub open spec fn after_wait(&self, n: u64, now: u64) -> SpeedLimiter {
        if self.refilled(now) >= n {
            SpeedLimiter {
                rate: self.rate,
                tokens: (self.refilled(now) - n) as u64,
                last_ms: self.base(now) as u64,
            }
        } else {
            SpeedLimiter {
                rate: self.rate,
                tokens: 0,
                last_ms: (self.base(now) + self.sleep_for(n, now)) as u64,
            }
        }
    }

    /// The clock does not overflow while waiting for `n` bytes at `now`.
    pub open spec fn wait_fits(&self, n: u64, now: u64) -> bool {
        self.base(now) + (n * 1000 + self.rate - 1) / (self.rate as int) <= u64::MAX
    }

    /// An empty bucket for `rate` bytes per second, filling from `now`.
    pub fn new(rate: u64, now: u64) -> (r: Self)
        requires
            rate > 0,
        ensures
            r.wf(),
            r == (SpeedLimiter { rate, tokens: 0, last_ms: now }),
    {
        SpeedLimiter { rate, tokens: 0, last_ms: now }
    }

    pub fn can_wait(&self, n: u64, now: u64) -> (r: bool)
        requires
            self.wf(),
        ensures
            r == self.wait_fits(n, now),
    {
        let base = if now >= self.last_ms { now } else { self.last_ms };
        let bound = (n as u128 * 1000 + self.rate as u128 - 1) / self.rate as u128;
        bound <= (u64::MAX - base) as u128
    }

    /// Takes `n` bytes from the bucket and returns how many milliseconds the
    /// caller must sleep before using them.
    pub fn wait(&mut self, n: u64, now: u64) -> (sleep_ms: u64)
        requires
            old(self).wf(),
            old(self).wait_fits(n, now),
        ensures
            final(self).wf(),
            *final(self) == old(self).after_wait(n, now),
            sleep_ms == old(self).sleep_for(n, now),
    {
        let base = if now >= self.last_ms { now } else { self.last_ms };
        let elapsed = base - self.last_ms;
        proof {
            let m = u64::MAX as int;
            assert((self.rate as int) * (elapsed as int) <= m * m) by (nonlinear_arith)
                requires 0 <= self.rate <= m, 0 <= elapsed <= m;
            assert(m * m <= u128::MAX) by (nonlinear_arith) requires m == u64::MAX;
        }
        let added = (self.rate as u128 * elapsed as u128) / 1000;
        let total = self.tokens as u128 + added;
        let refilled: u64 = if total >= self.rate as u128 { self.rate } else { total as u64 };
        if refilled >= n {
            self.tokens = refilled - n;
            self.last_ms = base;
            0
        } else {
            let short = (n - refilled) as u128;
            let sleep = (short * 1000 + self.rate as u128 - 1) / self.rate as u128;
            proof {
                let r = self.rate as int;
                assert(short * 1000 + r - 1 <= n * 1000 + r - 1);
                vstd::arithmetic::div_mod::lemma_div_is_ordered(short * 1000 + r - 1, n * 1000 + r - 1, r);
            }
            self.tokens = 0;
            self.last_ms = base + sleep as u64;
            sleep as u64
        }
    }
}

/// One grant of `n` bytes keeps the bucket's account: what it handed out plus
/// what it holds never exceeds what it held plus the refill since.
proof fn lemma_wait_accounting(s: SpeedLimiter, n: u64, now: u64)
    requires
        s.wf(),
        s.wait_fits(n, now),
    ensures
        s.after_wait(n, now).wf(),
        s.after_wait(n, now).last_ms >= s.last_ms,
        1000 * (n + s.after_wait(n, now).tokens) <= 1000 * s.tokens + s.rate * (s.after_wait(n, now).last_ms - s.last_ms),
{
    let r = s.rate as int;
    let e = s.base(now) - s.last_ms;
    let add = (r * e) / 1000;
    vstd::arithmetic::div_mod::lemma_fundamental_div_mod(r * e, 1000);
    vstd::arithmetic::div_mod::lemma_mod_bound(r * e, 1000);
    assert(r * e >= 0) by (nonlinear_arith) requires r > 0, e >= 0;
    assert(1000 * add <= r * e);
    let f = s.refilled(now);
    assert(f <= s.tokens + add);
    if f >= n {
    } else {
        let short = n - f;
        let sl = s.sleep_for(n, now);
        let x = short * 1000 + r - 1;
        vstd::arithmetic::div_mod::lemma_fundamental_div_mod(x, r);
        vstd::arithmetic::div_mod::lemma_mod_bound(x, r);
        assert(sl == x / r);
        assert(r * sl >= short * 1000) by (nonlinear_arith)
            requires x == r * (x / r) + x % r, x % r < r, sl == x / r, x == short * 1000 + r - 1;
        assert(sl >= 0) by (nonlinear_arith)
            requires r * sl >= short * 1000, short > 0, r > 0;
        assert(sl <= (n * 1000 + r - 1) / r) by {
            vstd::arithmetic::div_mod::lemma_div_is_ordered(x, n * 1000 + r - 1, r);
        }
        assert(r * (e + sl) == r * e + r * sl) by (nonlinear_arith);
    }
}

/// The bucket after granting each `(bytes, time)` request in turn, with the
/// total granted.
pub open spec fn run(s: SpeedLimiter, requests: Seq<(u64, u64)>) -> (SpeedLimiter, nat)
    decreases requests.len(),
{
    if requests.len() == 0 {
        (s, 0)
    } else {
        let next = s.after_wait(requests[0].0, requests[0].1);
        let (fin, granted) = run(next, requests.drop_first());
        (fin, granted + requests[0].0 as nat)
    }
}

/// Every request of the sequence fits the clock when it is made.
pub open spec fn all_fit(s: SpeedLimiter, requests: Seq<(u64, u64)>) -> bool
    decreases requests.len(),
{
    requests.len() == 0 || (s.wait_fits(requests[0].0, requests[0].1)
        && all_fit(s.after_wait(requests[0].0, requests[0].1), requests.drop_first()))
}

/// Throughput bound: from any state of the bucket, the bytes granted by the
/// time the last grant is released are at most one second's worth plus
/// `rate` per second of elapsed time (so at most 1.1 times the rate over ten
/// seconds).
pub proof fn lemma_throughput_bound(s: SpeedLimiter, requests: Seq<(u64, u64)>)
    requires
        s.wf(),
        all_fit(s, requests),
    ensures
        run(s, requests).0.wf(),
        run(s, requests).0.last_ms >= s.last_ms,
        1000 * (run(s, requests).1 + run(s, requests).0.tokens) <= 1000 * s.tokens
            + s.rate * (run(s, requests).0.last_ms - s.last_ms),
        1000 * run(s, requests).1 <= 1000 * s.rate + s.rate * (run(s, requests).0.last_ms - s.last_ms),
    decreases requests.len(),
{
    if requests.len() > 0 {
        let (n, now) = requests[0];
        let next = s.after_wait(n, now);
        lemma_wait_accounting(s, n, now);
        lemma_throughput_bound(next, requests.drop_first());
        let (fin, g) = run(next, requests.drop_first());
        let r = s.rate as int;
        assert(r * (fin.last_ms - s.last_ms) == r * (fin.last_ms - next.last_ms) + r * (next.last_ms - s.last_ms))
            by (nonlinear_arith);
    }
}

} // verus!
