//! Engine progress turned into queue progress: the running byte
//! count, a moving-average speed and the time left.

use vstd::prelude::*;
use crate::types::ProgressEvent;

verus! {

/// Width of the speed window, in milliseconds and in seconds.
pub const SPEED_WINDOW_MS: u64 = 5000;
pub const SPEED_WINDOW_SECS: u64 = 5;

/// A sample `(time_ms, bytes)` still counts at `now`: it is less than a
/// window old (samples stamped after `now` count too).
pub open spec fn in_window(now: u64) -> spec_fn((u64, u64)) -> bool {
    |s: (u64, u64)| now < s.0 || now - s.0 < SPEED_WINDOW_MS
}

pub open spec fn bytes_sum(s: Seq<(u64, u64)>) -> int
    decreases s.len(),
{
    if s.len() == 0 {
        0
    } else {
        bytes_sum(s.drop_last()) + s.last().1
    }
}

/// Average bytes per second over the window, capped to `u64`.
pub open spec fn speed_of(samples: Seq<(u64, u64)>, now: u64) -> u64 {
    let v = bytes_sum(samples.filter(in_window(now))) / (SPEED_WINDOW_SECS as int);
    if v > u64::MAX { u64::MAX } else { v as u64 }
}

/// Seconds left at `speed` bytes per second, when both the speed and the
/// total are known.
pub open spec fn eta_of(total: u64, downloaded: u64, speed: u64) -> Option<u64> {
    if speed > 0 && total > 0 && downloaded <= total {
        Some(((total - downloaded) / (speed as int)) as u64)
    } else {
        None
    }
}

pub fn eta(total: u64, downloaded: u64, speed: u64) -> (r: Option<u64>)
    ensures
        r == eta_of(total, downloaded, speed),
{
    if speed > 0 && total > 0 && downloaded <= total {
        Some((total - downloaded) / speed)
    } else {
        None
    }
}

/// The recent deltas of one task, for its speed.
#[derive(Debug, Clone)]
pub struct SpeedWindow {
    pub samples: Vec<(u64, u64)>,
}

proof fn lemma_bytes_sum_bound(s: Seq<(u64, u64)>)
    ensures
        0 <= bytes_sum(s) <= s.len() * u64::MAX,
    decreases s.len(),
{
    if s.len() > 0 {
        lemma_bytes_sum_bound(s.drop_last());
    }
}

impl SpeedWindow {
    pub fn new() -> (r: Self)
        ensures
            r.samples@.len() == 0,
    {
        SpeedWindow { samples: Vec::new() }
    }

    /// Adds `bytes` received at `now` and forgets samples that left the window.
    pub fn record(&mut self, now: u64, bytes: u64)
        ensures
            final(self).samples@ == old(self).samples@.filter(in_window(now)).push((now, bytes)),
    {
        let mut kept: Vec<(u64, u64)> = Vec::new();
        let mut i: usize = 0;
        while i < self.samples.len()
            invariant
                0 <= i <= self.samples@.len(),
                self.samples@ == old(self).samples@,
                kept@ == self.samples@.subrange(0, i as int).filter(in_window(now)),
            decreases self.samples@.len() - i,
        {
            let s = self.samples[i];
            proof {
                let p = self.samples@.subrange(0, i as int + 1);
                assert(p.drop_last() == self.samples@.subrange(0, i as int));
                assert(p.last() == s);
                reveal(Seq::filter);
            }
            if now < s.0 || now - s.0 < SPEED_WINDOW_MS {
                kept.push(s);
            }
            i = i + 1;
        }
        proof {
            assert(self.samples@.subrange(0, self.samples@.len() as int) == self.samples@);
        }
        kept.push((now, bytes));
        self.samples = kept;
    }

    /// Average bytes per second over the last window.
    pub fn speed(&self, now: u64) -> (r: u64)
        ensures
            r == speed_of(self.samples@, now),
    {
        let mut sum: u128 = 0;
        let mut i: usize = 0;
        while i < self.samples.len()
            invariant
                0 <= i <= self.samples@.len(),
                sum == bytes_sum(self.samples@.subrange(0, i as int).filter(in_window(now))),
                sum <= i * u64::MAX,
            decreases self.samples@.len() - i,
        {
            let s = self.samples[i];
            proof {
                let p = self.samples@.subrange(0, i as int + 1);
                assert(p.drop_last() == self.samples@.subrange(0, i as int));
                assert(p.last() == s);
                reveal(Seq::filter);
                let f = self.samples@.subrange(0, i as int).filter(in_window(now));
                assert(f.push(s).drop_last() == f);
                assert((i + 1) * u64::MAX == i * u64::MAX + u64::MAX) by (nonlinear_arith);
                assert((i + 1) * u64::MAX <= u128::MAX) by (nonlinear_arith)
                    requires i < u64::MAX;
            }
            if now < s.0 || now - s.0 < SPEED_WINDOW_MS {
                sum = sum + s.1 as u128;
            }
            i = i + 1;
        }
        proof {
            assert(self.samples@.subrange(0, self.samples@.len() as int) == self.samples@);
        }
        let v = sum / SPEED_WINDOW_SECS as u128;
        if v > u64::MAX as u128 {
            u64::MAX
        } else {
            v as u64
        }
    }
}

/// Byte counts of one task as the engine reports them.
#[derive(Debug, Clone, Copy, PartialEq, Eq, Structural)]
pub struct ProgressTracker {
    pub total: u64,
    pub downloaded: u64,
}

impl ProgressTracker {
    pub fn new() -> (r: Self)
        ensures
            r.total == 0 && r.downloaded == 0,
    {
        ProgressTracker { total: 0, downloaded: 0 }
    }

    /// Folds one engine event in. Returns the bytes it adds when it moves the
    /// download forward, in which case progress is to be published.
    /// Chunk deltas accumulate (saturating); a stream reports its running total.
    pub fn apply(&mut self, event: &ProgressEvent) -> (r: Option<u64>)
        ensures
            (match *event {
                ProgressEvent::Initialized { total_size } => {
                    &&& final(self).total == (match total_size { Some(t) => t, None => 0 })
                    &&& final(self).downloaded == old(self).downloaded
                    &&& r is None
                },
                ProgressEvent::ChunkUpdated { delta, .. } => {
                    &&& final(self).total == old(self).total
                    &&& final(self).downloaded == (if old(self).downloaded + delta > u64::MAX { u64::MAX as int } else { old(self).downloaded + delta })
                    &&& r == Some(delta)
                },
                ProgressEvent::StreamUpdated { downloaded } => {
                    &&& final(self).total == old(self).total
                    &&& final(self).downloaded == downloaded
                    &&& r == Some((if downloaded >= old(self).downloaded { downloaded - old(self).downloaded } else { 0 }) as u64)
                },
                _ => *final(self) == *old(self) && r is None,
            }),
    {
        match event {
            ProgressEvent::Initialized { total_size } => {
                self.total = match total_size {
                    Some(t) => *t,
                    None => 0,
                };
                None
            },
            ProgressEvent::ChunkUpdated { delta, .. } => {
                self.downloaded = self.downloaded.saturating_add(*delta);
                Some(*delta)
            },
            ProgressEvent::StreamUpdated { downloaded } => {
                let step = if *downloaded >= self.downloaded { *downloaded - self.downloaded } else { 0 };
                self.downloaded = *downloaded;
                Some(step)
            },
            _ => None,
        }
    }
}

} // verus!
