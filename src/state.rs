//! The chunk plan and the per-file download journal.

use vstd::prelude::*;
use crate::types::DownloadError;

verus! {

/// Progress of one byte range `[start, end]` (inclusive) of a file.
#[derive(Debug, Clone, Copy, PartialEq, Eq, Structural)]
pub struct ChunkState {
    pub index: usize,
    pub start: u64,
    pub end: u64,
    pub current: u64,
    pub is_finished: bool,
}

/// The journal of one in-flight file.
#[derive(Debug, Clone)]
pub struct DownloadState {
    pub url: String,
    pub total_size: Option<u64>,
    pub chunks: Vec<ChunkState>,
    pub is_streaming: bool,
}

/// The journal that belongs to the file `dest`: `dest` followed by `.json`.
pub open spec fn journal_path_of(dest: Seq<char>) -> Seq<char> {
    dest + seq!['.', 'j', 's', 'o', 'n']
}

pub fn journal_path(dest: &str) -> (r: String)
    ensures
        r@ == journal_path_of(dest@),
{
    proof { reveal_strlit(".json"); }
    let s = dest.to_owned();
    s.concat(".json")
}

/// Number of chunks of size `chunk` needed to cover `total` bytes.
pub open spec fn num_chunks(total: nat, chunk: nat) -> nat {
    if chunk == 0 {
        0
    } else {
        ((total + chunk - 1) / chunk as int) as nat
    }
}

pub open spec fn min_nat(a: nat, b: nat) -> nat {
    if a <= b { a } else { b }
}

/// Chunk `i` of the plan: `[i*chunk, min((i+1)*chunk, total) - 1]`, not started.
pub open spec fn planned_chunk(i: nat, total: nat, chunk: nat) -> ChunkState {
    ChunkState {
        index: i as usize,
        start: (i * chunk) as u64,
        end: (min_nat((i + 1) * chunk, total) - 1) as u64,
        current: (i * chunk) as u64,
        is_finished: false,
    }
}

/// The partition of `[0, total)` into chunks of size `chunk`.
pub open spec fn plan(total: nat, chunk: nat) -> Seq<ChunkState> {
    Seq::new(num_chunks(total, chunk), |i: int| planned_chunk(i as nat, total, chunk))
}

/// A chunk's cursor lies inside its range, and a finished chunk is full.
pub open spec fn chunk_ok(c: ChunkState) -> bool {
    &&& c.start <= c.end
    &&& c.start <= c.current
    &&& c.current <= c.end + 1
    &&& c.is_finished ==> c.current == c.end + 1
}

/// Each chunk begins right after the one before it.
pub open spec fn contiguous(cs: Seq<ChunkState>) -> bool {
    forall|i: int| 0 <= i < cs.len() - 1 ==> #[trigger] cs[i + 1].start == cs[i].end + 1
}

/// The chunks are well formed, numbered in order, contiguous, and cover `[0, total)`.
pub open spec fn layout_ok(cs: Seq<ChunkState>, total: nat) -> bool {
    &&& cs.len() > 0
    &&& cs[0].start == 0
    &&& cs.last().end + 1 == total
    &&& forall|i: int| 0 <= i < cs.len() ==> chunk_ok(#[trigger] cs[i]) && cs[i].index == i
    &&& contiguous(cs)
}

/// Bytes already written into the chunks: the sum of `current - start`.
pub open spec fn progress_sum(cs: Seq<ChunkState>) -> int
    decreases cs.len(),
{
    if cs.len() == 0 {
        0
    } else {
        progress_sum(cs.drop_last()) + (cs.last().current - cs.last().start)
    }
}

/// Total length of the chunks: the sum of `end - start + 1`.
pub open spec fn span_sum(cs: Seq<ChunkState>) -> int
    decreases cs.len(),
{
    if cs.len() == 0 {
        0
    } else {
        span_sum(cs.drop_last()) + (cs.last().end - cs.last().start + 1)
    }
}

pub open spec fn all_finished(cs: Seq<ChunkState>) -> bool {
    forall|i: int| 0 <= i < cs.len() ==> (#[trigger] cs[i]).is_finished
}

/// The byte range still to fetch for a chunk, if any.
pub open spec fn remaining_range(c: ChunkState) -> Option<(u64, u64)> {
    if c.is_finished || c.current > c.end {
        None
    } else {
        Some((c.current, c.end))
    }
}

impl DownloadState {
    /// Streaming journals hold no chunks; ranged ones hold a valid layout of
    /// a known, positive size.
    pub open spec fn wf(&self) -> bool {
        if self.is_streaming {
            self.chunks@.len() == 0
        } else {
            &&& self.total_size is Some
            &&& layout_ok(self.chunks@, self.total_size->0 as nat)
        }
    }

    /// A fresh journal for a ranged download, with the chunks of the plan.
    pub fn ranged(url: String, total_size: u64, chunk_size: u64) -> (r: Self)
        requires
            total_size > 0,
            chunk_size > 0,
            num_chunks(total_size as nat, chunk_size as nat) <= usize::MAX,
        ensures
            r.wf(),
            r.url@ == url@,
            r.total_size == Some(total_size),
            r.chunks@ == plan(total_size as nat, chunk_size as nat),
            !r.is_streaming,
    {
        let chunks = plan_chunks(total_size, chunk_size);
        DownloadState { url, total_size: Some(total_size), chunks, is_streaming: false }
    }

    /// A journal for a streaming download: no chunks.
    pub fn streaming(url: String, total_size: Option<u64>) -> (r: Self)
        ensures
            r.wf(),
            r.url@ == url@,
            r.total_size == total_size,
            r.chunks@.len() == 0,
            r.is_streaming,
    {
        DownloadState { url, total_size, chunks: Vec::new(), is_streaming: true }
    }

    /// Checks the journal's invariants, as one read back from disk must be
    /// checked before it is trusted.
    pub fn is_valid(&self) -> (r: bool)
        ensures
            r == self.wf(),
    {
        if self.is_streaming {
            return self.chunks.len() == 0;
        }
        let total = match self.total_size {
            Some(t) => t,
            None => return false,
        };
        let n = self.chunks.len();
        if n == 0 {
            return false;
        }
        if self.chunks[0].start != 0 {
            return false;
        }
        let mut i: usize = 0;
        while i < n
            invariant
                n == self.chunks@.len(),
                n > 0,
                self.chunks@[0].start == 0,
                0 <= i <= n,
                forall|k: int| 0 <= k < i ==> chunk_ok(#[trigger] self.chunks@[k]) && self.chunks@[k].index == k,
                forall|k: int| 0 <= k < i && k + 1 < n ==> #[trigger] self.chunks@[k + 1].start == self.chunks@[k].end + 1,
            decreases n - i,
        {
            let c = self.chunks[i];
            if !(c.start <= c.end && c.start <= c.current && (c.current <= c.end || c.current - c.end == 1)
                && c.index == i) {
                return false;
            }
            if c.is_finished && !(c.current > c.end && c.current - c.end == 1) {
                return false;
            }
            if i + 1 < n {
                let next = self.chunks[i + 1];
                if c.end == u64::MAX || next.start != c.end + 1 {
                    return false;
                }
            }
            i = i + 1;
        }
        let last = self.chunks[n - 1];
        if last.end == u64::MAX || last.end + 1 != total {
            return false;
        }
        proof {
            assert(contiguous(self.chunks@)) by {
                assert forall|k: int| 0 <= k < self.chunks@.len() - 1 implies #[trigger] self.chunks@[k + 1].start == self.chunks@[k].end + 1 by {
                    assert(k < i && k + 1 < n);
                }
            }
        }
        true
    }

    /// The journal was made for `url`.
    pub fn matches_url(&self, url: &str) -> (r: bool)
        ensures
            r == (self.url@ == url@),
    {
        let u = url.to_owned();
        self.url == u
    }

    /// The range chunk `i` still has to fetch: none once it is finished or full.
    pub fn pending_range(&self, i: usize) -> (r: Option<(u64, u64)>)
        requires
            i < self.chunks@.len(),
        ensures
            r == remaining_range(self.chunks@[i as int]),
    {
        let c = self.chunks[i];
        if c.is_finished || c.current > c.end {
            None
        } else {
            Some((c.current, c.end))
        }
    }

    /// Indices of the chunks that still have bytes to fetch, in order.
    pub fn pending_chunks(&self) -> (r: Vec<usize>)
        ensures
            forall|k: int| 0 <= k < r@.len() ==> (#[trigger] r@[k]) < self.chunks@.len()
                && remaining_range(self.chunks@[r@[k] as int]) is Some,
            forall|k: int, l: int| 0 <= k < l < r@.len() ==> r@[k] < r@[l],
            forall|i: int| 0 <= i < self.chunks@.len() && (remaining_range(#[trigger] self.chunks@[i]) is Some)
                ==> r@.contains(i as usize),
    {
        let mut r: Vec<usize> = Vec::new();
        let n = self.chunks.len();
        let mut i: usize = 0;
        while i < n
            invariant
                n == self.chunks@.len(),
                0 <= i <= n,
                forall|k: int| 0 <= k < r@.len() ==> (#[trigger] r@[k]) < i
                    && remaining_range(self.chunks@[r@[k] as int]) is Some,
                forall|k: int, l: int| 0 <= k < l < r@.len() ==> r@[k] < r@[l],
                forall|j: int| 0 <= j < i && (remaining_range(#[trigger] self.chunks@[j]) is Some)
                    ==> r@.contains(j as usize),
            decreases n - i,
        {
            let ghost before = r@;
            if self.pending_range(i).is_some() {
                r.push(i);
            }
            proof {
                assert forall|j: int| 0 <= j < i + 1 && (remaining_range(#[trigger] self.chunks@[j]) is Some)
                    implies r@.contains(j as usize) by {
                    if j == i {
                        assert(r@[r@.len() - 1] == i);
                    } else {
                        let k = choose|k: int| 0 <= k < before.len() && before[k] == j as usize;
                        assert(r@[k] == before[k]);
                    }
                }
            }
            i = i + 1;
        }
        r
    }

    /// Whether `n` more bytes fit in chunk `i`: exactly when `record_write`
    /// would accept them.
    pub fn fits(&self, i: usize, n: u64) -> (r: bool)
        requires
            i < self.chunks@.len(),
        ensures
            r == (self.chunks@[i as int].current + n <= self.chunks@[i as int].end + 1
                && !self.chunks@[i as int].is_finished || n == 0),
    {
        let c = self.chunks[i];
        n == 0 || (!c.is_finished && c.current <= c.end && c.end - c.current >= n - 1)
    }

    /// Records that `n` more bytes of chunk `i` reached the file. Fails, and
    /// changes nothing, when they would run past the end of the chunk.
    pub fn record_write(&mut self, i: usize, n: u64) -> (r: Result<(), DownloadError>)
        requires
            old(self).wf(),
            !old(self).is_streaming,
            i < old(self).chunks@.len(),
        ensures
            final(self).wf(),
            r is Ok <==> old(self).chunks@[i as int].current + n <= old(self).chunks@[i as int].end + 1
                && !old(self).chunks@[i as int].is_finished || n == 0,
            r is Ok ==> final(self).chunks@ == old(self).chunks@.update(
                i as int,
                ChunkState { current: (old(self).chunks@[i as int].current + n) as u64, ..old(self).chunks@[i as int] },
            ),
            r is Ok ==> progress_sum(final(self).chunks@) == progress_sum(old(self).chunks@) + n,
            r is Err ==> *final(self) == *old(self),
            r is Err ==> r->Err_0 is OriginError,
            final(self).url == old(self).url,
            final(self).total_size == old(self).total_size,
            final(self).is_streaming == old(self).is_streaming,
    {
        let c = self.chunks[i];
        if n == 0 {
            proof {
                assert(self.chunks@.update(i as int, c) == self.chunks@);
            }
            return Ok(());
        }
        if c.is_finished || c.current > c.end || c.end - c.current < n - 1 {
            return Err(DownloadError::OriginError("the origin sent more bytes than the range asked for".to_string()));
        }
        proof {
            let cs = self.chunks@;
            if (i as int) < cs.len() - 1 {
                let j = i as int;
                assert(cs[j + 1].start == cs[j].end + 1);
            }
        }
        let updated = ChunkState { current: c.current + n, ..c };
        proof {
            lemma_progress_sum_update(self.chunks@, i as int, updated);
        }
        self.chunks.set(i, updated);
        proof {
            assert forall|k: int| 0 <= k < self.chunks@.len() - 1 implies #[trigger] self.chunks@[k + 1].start == self.chunks@[k].end + 1 by {
                assert(old(self).chunks@[k + 1].start == old(self).chunks@[k].end + 1);
            }
        }
        Ok(())
    }

    /// Marks chunk `i` finished when its cursor has reached the end of its
    /// range; returns whether it is finished now.
    pub fn finish_chunk(&mut self, i: usize) -> (r: bool)
        requires
            old(self).wf(),
            !old(self).is_streaming,
            i < old(self).chunks@.len(),
        ensures
            final(self).wf(),
            r == (old(self).chunks@[i as int].current == old(self).chunks@[i as int].end + 1),
            r ==> final(self).chunks@ == old(self).chunks@.update(
                i as int,
                ChunkState { is_finished: true, ..old(self).chunks@[i as int] },
            ),
            !r ==> *final(self) == *old(self),
            progress_sum(final(self).chunks@) == progress_sum(old(self).chunks@),
            final(self).url == old(self).url,
            final(self).total_size == old(self).total_size,
            final(self).is_streaming == old(self).is_streaming,
    {
        let c = self.chunks[i];
        if c.current <= c.end {
            return false;
        }
        let updated = ChunkState { is_finished: true, ..c };
        proof {
            lemma_progress_sum_update(self.chunks@, i as int, updated);
        }
        self.chunks.set(i, updated);
        proof {
            assert forall|k: int| 0 <= k < self.chunks@.len() - 1 implies #[trigger] self.chunks@[k + 1].start == self.chunks@[k].end + 1 by {
                assert(old(self).chunks@[k + 1].start == old(self).chunks@[k].end + 1);
            }
        }
        true
    }

    /// Every chunk is finished.
    pub fn is_complete(&self) -> (r: bool)
        ensures
            r == all_finished(self.chunks@),
    {
        let n = self.chunks.len();
        let mut i: usize = 0;
        while i < n
            invariant
                n == self.chunks@.len(),
                0 <= i <= n,
                forall|k: int| 0 <= k < i ==> (#[trigger] self.chunks@[k]).is_finished,
            decreases n - i,
        {
            if !self.chunks[i].is_finished {
                return false;
            }
            i = i + 1;
        }
        true
    }

    /// Bytes written so far: the sum over chunks of `current - start`.
    pub fn downloaded(&self) -> (r: u64)
        requires
            self.wf(),
            !self.is_streaming,
        ensures
            r == progress_sum(self.chunks@),
    {
        let n = self.chunks.len();
        proof {
            lemma_progress_le_span(self.chunks@);
            lemma_span_of_contiguous(self.chunks@);
        }
        let mut sum: u64 = 0;
        let mut i: usize = 0;
        while i < n
            invariant
                n == self.chunks@.len(),
                self.wf(),
                !self.is_streaming,
                0 <= i <= n,
                sum == progress_sum(self.chunks@.take(i as int)),
                progress_sum(self.chunks@) <= self.total_size->0,
            decreases n - i,
        {
            let c = self.chunks[i];
            proof {
                assert(self.chunks@.take(i as int + 1).drop_last() == self.chunks@.take(i as int));
                lemma_progress_prefix_le(self.chunks@, i as int + 1);
            }
            sum = sum + (c.current - c.start);
            i = i + 1;
        }
        proof {
            assert(self.chunks@.take(n as int) == self.chunks@);
        }
        sum
    }
}

/// Partitions `[0, total_size)` into chunks of `chunk_size` bytes, the last
/// one possibly shorter.
pub fn plan_chunks(total_size: u64, chunk_size: u64) -> (r: Vec<ChunkState>)
    requires
        total_size > 0,
        chunk_size > 0,
        num_chunks(total_size as nat, chunk_size as nat) <= usize::MAX,
    ensures
        r@ == plan(total_size as nat, chunk_size as nat),
        layout_ok(r@, total_size as nat),
{
    let ghost t = total_size as nat;
    let ghost c = chunk_size as nat;
    let mut r: Vec<ChunkState> = Vec::new();
    let mut curr: u64 = 0;
    let mut idx: usize = 0;
    proof {
        lemma_count_facts(t, c);
    }
    loop
        invariant
            t == total_size as nat,
            c == chunk_size as nat,
            c > 0,
            num_chunks(t, c) <= usize::MAX,
            curr == idx as nat * c,
            curr < total_size,
            r@.len() == idx,
            idx < num_chunks(t, c),
            forall|k: int| 0 <= k < idx ==> #[trigger] r@[k] == planned_chunk(k as nat, t, c),
        decreases total_size - curr,
    {
        proof {
            lemma_chunk_count_bound(t, c, idx as nat);
        }
        if total_size - curr <= chunk_size {
            let ch = ChunkState { index: idx, start: curr, end: total_size - 1, current: curr, is_finished: false };
            proof {
                assert((idx as nat + 1) * c == idx as nat * c + c) by (nonlinear_arith);
                assert(ch == planned_chunk(idx as nat, t, c));
                lemma_last_chunk_count(t, c, idx as nat);
            }
            r.push(ch);
            proof {
                assert(r@ =~= plan(t, c));
                lemma_plan_layout(t, c);
            }
            return r;
        }
        let ch = ChunkState { index: idx, start: curr, end: curr + chunk_size - 1, current: curr, is_finished: false };
        proof {
            assert((idx as nat + 1) * c == idx as nat * c + c) by (nonlinear_arith);
            assert(ch == planned_chunk(idx as nat, t, c));
        }
        r.push(ch);
        curr = curr + chunk_size;
        idx = idx + 1;
        proof {
            lemma_chunk_count_bound(t, c, idx as nat);
        }
    }
}

/// While `k * c < t`, the plan has more than `k` chunks.
proof fn lemma_chunk_count_bound(t: nat, c: nat, k: nat)
    requires
        c > 0,
        k * c < t,
    ensures
        k < num_chunks(t, c),
{
    lemma_more_chunks(t, c, k + 1);
}

proof fn lemma_more_chunks(t: nat, c: nat, k: nat)
    requires
        c > 0,
        k > 0,
        (k - 1) * c < t,
    ensures
        k - 1 < num_chunks(t, c),
{
    let x = (t + c - 1) as int;
    let a: int = (k as int - 1) * c as int;
    assert(a + c <= x);
    assert(k * c == a + c) by (nonlinear_arith)
        requires a == (k as int - 1) * c as int;
    vstd::arithmetic::div_mod::lemma_div_is_ordered(a + c, x, c as int);
    vstd::arithmetic::div_mod::lemma_fundamental_div_mod_converse(a + c, c as int, k as int, 0);
}

/// When the chunk starting at `k * c` reaches `t`, the plan has exactly `k + 1` chunks.
proof fn lemma_last_chunk_count(t: nat, c: nat, k: nat)
    requires
        c > 0,
        k * c < t,
        t - k * c <= c,
    ensures
        num_chunks(t, c) == k + 1,
{
    let x = (t + c - 1) as int;
    let rem = x - (k + 1) * c;
    assert(0 <= rem < c) by (nonlinear_arith)
        requires k * c < t, t - k * c <= c, x == t + c - 1, rem == x - (k + 1) * c;
    vstd::arithmetic::div_mod::lemma_fundamental_div_mod_converse(x, c as int, k as int + 1, rem);
}

/// The plan is a valid layout of `[0, t)`.
pub proof fn lemma_plan_layout(t: nat, c: nat)
    requires
        t > 0,
        c > 0,
        t <= u64::MAX,
        num_chunks(t, c) <= usize::MAX,
    ensures
        layout_ok(plan(t, c), t),
{
    let p = plan(t, c);
    let n = num_chunks(t, c);
    lemma_count_facts(t, c);
    assert forall|i: int| 0 <= i < p.len() implies chunk_ok(#[trigger] p[i]) && p[i].index == i by {
        lemma_chunk_in_range(t, c, i as nat);
    }
    assert forall|i: int| 0 <= i < p.len() - 1 implies #[trigger] p[i + 1].start == p[i].end + 1 by {
        lemma_chunk_in_range(t, c, i as nat);
        lemma_chunk_in_range(t, c, (i + 1) as nat);
        assert((i + 1) * c < t) by {
            assert((i + 1) * c <= (n - 1) * c) by (nonlinear_arith) requires i + 1 <= n - 1;
        }
        assert((i + 1) * c == i * c + c) by (nonlinear_arith);
    }
    lemma_chunk_in_range(t, c, (n - 1) as nat);
    assert(p[0].start == 0);
}

/// Facts about the chunk count: positive, the last chunk starts before `t`
/// and the chunks reach `t`.
proof fn lemma_count_facts(t: nat, c: nat)
    requires
        t > 0,
        c > 0,
    ensures
        num_chunks(t, c) >= 1,
        (num_chunks(t, c) - 1) * c < t,
        t <= num_chunks(t, c) * c,
{
    let x = (t + c - 1) as int;
    let n = x / c as int;
    vstd::arithmetic::div_mod::lemma_fundamental_div_mod(x, c as int);
    vstd::arithmetic::div_mod::lemma_mod_bound(x, c as int);
    let r = x % c as int;
    assert(x == c * n + r);
    assert(n >= 1) by (nonlinear_arith) requires x == c * n + r, 0 <= r < c, x >= c, c > 0;
    assert((n - 1) * c < t) by (nonlinear_arith) requires x == c * n + r, 0 <= r, x == t + c - 1;
    assert(t <= n * c) by (nonlinear_arith) requires x == c * n + r, r < c, x == t + c - 1;
}

/// Chunk `i` of the plan lies inside `[0, t)` and is not empty.
proof fn lemma_chunk_in_range(t: nat, c: nat, i: nat)
    requires
        t > 0,
        c > 0,
        t <= u64::MAX,
        i < num_chunks(t, c),
        num_chunks(t, c) <= usize::MAX,
    ensures
        i * c < t,
        planned_chunk(i, t, c).start == i * c,
        planned_chunk(i, t, c).current == i * c,
        planned_chunk(i, t, c).end == min_nat((i + 1) * c, t) - 1,
        planned_chunk(i, t, c).index == i,
        chunk_ok(planned_chunk(i, t, c)),
        i + 1 == num_chunks(t, c) ==> planned_chunk(i, t, c).end + 1 == t,
        i + 1 < num_chunks(t, c) ==> planned_chunk(i, t, c).end + 1 == (i + 1) * c,
{
    lemma_count_facts(t, c);
    let n = num_chunks(t, c);
    assert(i * c <= (n - 1) * c) by (nonlinear_arith) requires i <= n - 1;
    assert((i + 1) * c == i * c + c) by (nonlinear_arith);
    if i + 1 == n {
        assert(t <= (i + 1) * c);
    } else {
        assert((i + 1) * c <= (n - 1) * c) by (nonlinear_arith) requires i + 1 <= n - 1;
    }
}

/// `progress_sum` after replacing one chunk.
proof fn lemma_progress_sum_update(cs: Seq<ChunkState>, i: int, c: ChunkState)
    requires
        0 <= i < cs.len(),
    ensures
        progress_sum(cs.update(i, c)) == progress_sum(cs) - (cs[i].current - cs[i].start) + (c.current - c.start),
    decreases cs.len(),
{
    let u = cs.update(i, c);
    if i == cs.len() - 1 {
        assert(u.drop_last() =~= cs.drop_last());
    } else {
        assert(u.drop_last() =~= cs.drop_last().update(i, c));
        lemma_progress_sum_update(cs.drop_last(), i, c);
    }
}

/// For contiguous chunks, the spans add up to the distance from the first
/// start to one past the last end.
proof fn lemma_span_of_contiguous(cs: Seq<ChunkState>)
    requires
        cs.len() > 0,
        contiguous(cs),
    ensures
        span_sum(cs) == cs.last().end + 1 - cs[0].start,
    decreases cs.len(),
{
    if cs.len() == 1 {
        assert(cs.drop_last().len() == 0);
        assert(span_sum(cs.drop_last()) == 0);
        assert(cs.last() == cs[0]);
    } else {
        let d = cs.drop_last();
        assert(d.last() == cs[cs.len() - 2]);
        assert(d[0] == cs[0]);
        assert(contiguous(d)) by {
            assert forall|i: int| 0 <= i < d.len() - 1 implies #[trigger] d[i + 1].start == d[i].end + 1 by {
                assert(cs[i + 1].start == cs[i].end + 1);
            }
        }
        lemma_span_of_contiguous(d);
        let i = cs.len() - 2;
        assert(cs[i + 1].start == cs[i].end + 1);
        assert(span_sum(cs) == span_sum(d) + (cs.last().end - cs.last().start + 1));
    }
}

/// Progress never exceeds the span, chunk by chunk.
proof fn lemma_progress_le_span(cs: Seq<ChunkState>)
    requires
        forall|i: int| 0 <= i < cs.len() ==> chunk_ok(#[trigger] cs[i]),
    ensures
        0 <= progress_sum(cs) <= span_sum(cs),
    decreases cs.len(),
{
    if cs.len() > 0 {
        let d = cs.drop_last();
        assert forall|i: int| 0 <= i < d.len() implies chunk_ok(#[trigger] d[i]) by {
            assert(chunk_ok(cs[i]));
        }
        lemma_progress_le_span(d);
        assert(chunk_ok(cs[cs.len() - 1]));
    }
}

/// The progress of a prefix is at most the progress of the whole.
proof fn lemma_progress_prefix_le(cs: Seq<ChunkState>, k: int)
    requires
        0 <= k <= cs.len(),
        forall|i: int| 0 <= i < cs.len() ==> chunk_ok(#[trigger] cs[i]),
    ensures
        progress_sum(cs.take(k)) <= progress_sum(cs),
    decreases cs.len() - k,
{
    if k < cs.len() {
        let t1 = cs.take(k + 1);
        assert(t1.drop_last() =~= cs.take(k));
        assert(chunk_ok(cs[k]));
        lemma_progress_prefix_le(cs, k + 1);
    } else {
        assert(cs.take(k) =~= cs);
    }
}

/// When every chunk is finished, the bytes written equal the file size.
pub proof fn lemma_complete_progress_is_total(s: DownloadState)
    requires
        s.wf(),
        !s.is_streaming,
        all_finished(s.chunks@),
    ensures
        progress_sum(s.chunks@) == s.total_size->0,
{
    lemma_progress_eq_span(s.chunks@);
    lemma_span_of_contiguous(s.chunks@);
}

proof fn lemma_progress_eq_span(cs: Seq<ChunkState>)
    requires
        forall|i: int| 0 <= i < cs.len() ==> chunk_ok(#[trigger] cs[i]),
        all_finished(cs),
    ensures
        progress_sum(cs) == span_sum(cs),
    decreases cs.len(),
{
    if cs.len() > 0 {
        let d = cs.drop_last();
        assert forall|i: int| 0 <= i < d.len() implies chunk_ok(#[trigger] d[i]) && d[i].is_finished by {
            assert(chunk_ok(cs[i]) && cs[i].is_finished);
        }
        lemma_progress_eq_span(d);
        assert(chunk_ok(cs[cs.len() - 1]) && cs[cs.len() - 1].is_finished);
    }
}

/// A file exactly one chunk long is planned as one chunk covering it.
pub proof fn lemma_plan_exact_chunk(size: nat)
    requires
        0 < size <= u64::MAX,
    ensures
        plan(size, size).len() == 1,
        plan(size, size)[0].start == 0,
        plan(size, size)[0].end == size - 1,
{
    lemma_last_chunk_count(size, size, 0);
}

/// A file one byte shorter than the chunk size is planned as one chunk
/// spanning `[0, total - 1]`.
pub proof fn lemma_plan_short_file(total: nat, chunk: nat)
    requires
        0 < total,
        chunk == total + 1,
        chunk <= u64::MAX,
    ensures
        plan(total, chunk).len() == 1,
        plan(total, chunk)[0].start == 0,
        plan(total, chunk)[0].end == total - 1,
        plan(total, chunk)[0].current == 0,
        !plan(total, chunk)[0].is_finished,
{
    lemma_last_chunk_count(total, chunk, 0);
}

} // verus!
