//! Decisions of the file engine: what a probe means, which journal to use,
//! and when a failing chunk is retried.

use vstd::prelude::*;
use crate::state::{lemma_plan_exact_chunk, lemma_plan_short_file, num_chunks, plan, DownloadState};
use crate::text::{chars_of, contains_chars, contains_seq, decimal_of, decimal_text, parse_u64, parsed_u64};
use vstd::string::*;
use crate::types::{DownloadConfig, DownloadError, DownloadMode};

verus! {

/// Additional attempts after the first one before a chunk fails.
pub const MAX_RETRIES: u32 = 5;
/// Seconds to wait before the next attempt of a failed chunk.
pub const RETRY_DELAY_SECS: u64 = 2;

/// How the engine fetches a file.
#[derive(Debug, Clone, Copy, PartialEq, Eq, Structural)]
pub enum TransferPlan {
    /// Byte-range requests over a file of known, positive size.
    Ranged { total_size: u64 },
    /// One plain request; the size may be unknown.
    Streaming { total_size: Option<u64> },
}

/// The plan a probe leads to, or why the origin is unusable.
pub open spec fn transfer_for(mode: DownloadMode, length: Option<u64>, ranges: bool) -> Result<TransferPlan, ()> {
    if length == Some(0u64) {
        Err(())
    } else if mode == DownloadMode::Auto && length is Some && ranges {
        Ok(TransferPlan::Ranged { total_size: length->0 })
    } else {
        Ok(TransferPlan::Streaming { total_size: length })
    }
}

/// `Accept-Ranges` value that announces byte ranges: it mentions `bytes`.
pub open spec fn announces_byte_ranges(value: Seq<char>) -> bool {
    contains_seq(value, seq!['b', 'y', 't', 'e', 's'])
}

/// Reads a `Content-Length` header value.
pub fn content_length(value: Option<&str>) -> (r: Option<u64>)
    ensures
        value is None ==> r is None,
        value is Some ==> r == parsed_u64(value->0@),
{
    match value {
        Some(v) => parse_u64(v),
        None => None,
    }
}

/// Whether an `Accept-Ranges` header value allows byte ranges; a missing
/// header does not.
pub fn accepts_byte_ranges(value: Option<&str>) -> (r: bool)
    ensures
        r == (value is Some && announces_byte_ranges(value->0@)),
{
    match value {
        Some(v) => {
            let hay = chars_of(v);
            let needle = vec!['b', 'y', 't', 'e', 's'];
            proof {
                assert(needle@ == seq!['b', 'y', 't', 'e', 's']);
            }
            contains_chars(&hay, &needle)
        },
        None => false,
    }
}

/// Chooses ranged or streaming transfer from the configured mode and the
/// probe. A known length of zero is refused: there is nothing to fetch.
pub fn choose_transfer(mode: DownloadMode, length: Option<u64>, accepts_ranges: bool) -> (r: Result<TransferPlan, DownloadError>)
    ensures
        transfer_for(mode, length, accepts_ranges) is Err <==> r is Err,
        r is Ok ==> transfer_for(mode, length, accepts_ranges) == Ok::<TransferPlan, ()>(r->Ok_0),
        r is Err ==> r->Err_0 is OriginError,
{
    if let Some(0) = length {
        return Err(DownloadError::OriginError("the origin reports an empty file".to_string()));
    }
    match (mode, length) {
        (DownloadMode::Auto, Some(t)) => {
            if accepts_ranges {
                Ok(TransferPlan::Ranged { total_size: t })
            } else {
                Ok(TransferPlan::Streaming { total_size: length })
            }
        },
        _ => Ok(TransferPlan::Streaming { total_size: length }),
    }
}

/// The journal to resume from: the one found on disk when it is intact and
/// was made for `url`, else none.
pub fn reusable_journal(found: Option<DownloadState>, url: &str) -> (r: Option<DownloadState>)
    ensures
        r is Some <==> (found is Some && found->0.wf() && found->0.url@ == url@),
        r is Some ==> r == found,
{
    match found {
        Some(s) => {
            if s.is_valid() && s.matches_url(url) {
                Some(s)
            } else {
                None
            }
        },
        None => None,
    }
}

/// A fresh journal for `url` after a probe that reported `length` and
/// `accepts_ranges`.
pub fn new_journal(url: &str, config: &DownloadConfig, length: Option<u64>, accepts_ranges: bool) -> (r: Result<DownloadState, DownloadError>)
    ensures
        length == Some(0u64) ==> r is Err && r->Err_0 is OriginError,
        r is Ok ==> r->Ok_0.wf() && r->Ok_0.url@ == url@,
        r is Ok ==> (match transfer_for(config.mode, length, accepts_ranges) {
            Ok(TransferPlan::Ranged { total_size }) => !r->Ok_0.is_streaming
                && r->Ok_0.total_size == Some(total_size)
                && r->Ok_0.chunks@ == plan(total_size as nat, config.chunk_size as nat),
            Ok(TransferPlan::Streaming { total_size }) => r->Ok_0.is_streaming
                && r->Ok_0.total_size == total_size,
            Err(_) => false,
        }),
        r is Err ==> (r->Err_0 is OriginError || r->Err_0 is ConfigError),
        r is Err && r->Err_0 is ConfigError ==> (transfer_for(config.mode, length, accepts_ranges) matches Ok(TransferPlan::Ranged { .. })),
        (transfer_for(config.mode, length, accepts_ranges) matches Ok(TransferPlan::Streaming { .. })) ==> r is Ok,
        (transfer_for(config.mode, length, accepts_ranges) matches Ok(TransferPlan::Ranged { total_size }) && config.chunk_size > 0
            && num_chunks(total_size as nat, config.chunk_size as nat) <= usize::MAX) ==> r is Ok,
        r is Ok && !r->Ok_0.is_streaming && length is Some
            && (length->0 == config.chunk_size || length->0 + 1 == config.chunk_size) ==> ({
            let c = r->Ok_0.chunks@;
            &&& c.len() == 1
            &&& c[0].start == 0
            &&& c[0].end == length->0 - 1
            &&& c[0].current == 0
            &&& !c[0].is_finished
        }),
{
    let plan = choose_transfer(config.mode, length, accepts_ranges)?;
    let owned = url.to_owned();
    match plan {
        TransferPlan::Streaming { total_size } => Ok(DownloadState::streaming(owned, total_size)),
        TransferPlan::Ranged { total_size } => {
            let chunk = config.chunk_size;
            if chunk == 0 {
                return Err(DownloadError::ConfigError("chunk_size must be greater than 0".to_string()));
            }
            let count = if total_size % chunk == 0 {
                total_size / chunk
            } else {
                proof {
                    assert(chunk >= 2);
                    vstd::arithmetic::div_mod::lemma_div_is_ordered_by_denominator(total_size as int, 2, chunk as int);
                }
                total_size / chunk + 1
            };
            proof {
                lemma_chunk_count(total_size as nat, chunk as nat);
            }
            if count > usize::MAX as u64 {
                return Err(DownloadError::ConfigError("chunk_size is too small for this file".to_string()));
            }
            proof {
                if total_size == chunk {
                    lemma_plan_exact_chunk(total_size as nat);
                } else if total_size as int + 1 == chunk as int {
                    lemma_plan_short_file(total_size as nat, chunk as nat);
                }
            }
            Ok(DownloadState::ranged(owned, total_size, chunk))
        },
    }
}

proof fn lemma_chunk_count(t: nat, c: nat)
    requires
        c > 0,
    ensures
        num_chunks(t, c) == t / c + if t % c == 0 { 0nat } else { 1nat },
{
    let q = t / c;
    let r = t % c;
    vstd::arithmetic::div_mod::lemma_fundamental_div_mod(t as int, c as int);
    vstd::arithmetic::div_mod::lemma_mod_bound(t as int, c as int);
    assert((q as int + 1) * c == c * q + c) by (nonlinear_arith);
    assert(q as int * c == c * q) by (nonlinear_arith);
    if r == 0 {
        vstd::arithmetic::div_mod::lemma_fundamental_div_mod_converse((t + c - 1) as int, c as int, q as int, c as int - 1);
    } else {
        vstd::arithmetic::div_mod::lemma_fundamental_div_mod_converse((t + c - 1) as int, c as int, q as int + 1, r as int - 1);
    }
}

/// What to do after a failed attempt of a chunk.
#[derive(Debug, Clone, Copy, PartialEq, Eq, Structural)]
pub enum RetryDecision {
    RetryAfter { secs: u64 },
    GiveUp,
}

/// The decision after the `failures`-th failed attempt in a row.
pub open spec fn decision_after(failures: nat) -> RetryDecision {
    if failures > MAX_RETRIES {
        RetryDecision::GiveUp
    } else {
        RetryDecision::RetryAfter { secs: RETRY_DELAY_SECS }
    }
}

/// Counts the failed attempts of one chunk.
#[derive(Debug, Clone, Copy, PartialEq, Eq, Structural)]
pub struct RetryCounter {
    pub failures: u32,
}

impl RetryCounter {
    pub fn new() -> (r: Self)
        ensures
            r.failures == 0,
    {
        RetryCounter { failures: 0 }
    }

    /// Records one failed attempt and says whether to try again.
    pub fn record_failure(&mut self) -> (r: RetryDecision)
        requires
            old(self).failures <= MAX_RETRIES,
        ensures
            final(self).failures == old(self).failures + 1,
            r == decision_after(final(self).failures as nat),
    {
        self.failures = self.failures + 1;
        if self.failures > MAX_RETRIES {
            RetryDecision::GiveUp
        } else {
            RetryDecision::RetryAfter { secs: RETRY_DELAY_SECS }
        }
    }
}

/// Whether a chunk succeeds when its attempts turn out as `outcomes` (`true`
/// for a 2xx response), having failed `failures` times already.
pub open spec fn attempts_succeed(outcomes: Seq<bool>, failures: nat) -> bool
    decreases outcomes.len(),
{
    if outcomes.len() == 0 {
        false
    } else if outcomes[0] {
        true
    } else if decision_after(failures + 1) == RetryDecision::GiveUp {
        false
    } else {
        attempts_succeed(outcomes.drop_first(), failures + 1)
    }
}

/// A chunk survives five failed attempts in a row and succeeds on the sixth;
/// six failures in a row fail it, whatever would have followed.
pub proof fn lemma_retry_cap(rest: Seq<bool>)
    ensures
        attempts_succeed(seq![false, false, false, false, false, true], 0),
        !attempts_succeed(seq![false, false, false, false, false, false] + rest, 0),
{
    let ok = seq![false, false, false, false, false, true];
    assert(ok.drop_first() == seq![false, false, false, false, true]);
    assert(ok.drop_first().drop_first() == seq![false, false, false, true]);
    assert(ok.drop_first().drop_first().drop_first() == seq![false, false, true]);
    assert(ok.drop_first().drop_first().drop_first().drop_first() == seq![false, true]);
    assert(ok.drop_first().drop_first().drop_first().drop_first().drop_first() == seq![true]);
    reveal_with_fuel(attempts_succeed, 7);
    let bad = seq![false, false, false, false, false, false] + rest;
    let b1 = bad.drop_first();
    let b2 = b1.drop_first();
    let b3 = b2.drop_first();
    let b4 = b3.drop_first();
    let b5 = b4.drop_first();
    assert(b1[0] == false && b2[0] == false && b3[0] == false && b4[0] == false && b5[0] == false);
    assert(bad[0] == false);
}

/// The `Range` header value that asks for bytes `start..=end`.
pub open spec fn range_value(start: u64, end: u64) -> Seq<char> {
    seq!['b', 'y', 't', 'e', 's', '='] + decimal_of(start as nat) + seq!['-'] + decimal_of(end as nat)
}

pub fn range_header(start: u64, end: u64) -> (r: String)
    ensures
        r@ == range_value(start, end),
{
    proof {
        reveal_strlit("bytes=");
        reveal_strlit("-");
    }
    let mut s = "bytes=".to_owned();
    s.append(decimal_text(start).as_str());
    s.append("-");
    s.append(decimal_text(end).as_str());
    s
}

/// The `k`-th alternative name for `dest` when it is taken: `dest (k)`.
pub open spec fn numbered_name(dest: Seq<char>, k: u64) -> Seq<char> {
    dest + seq![' ', '('] + decimal_of(k as nat) + seq![')']
}

pub fn numbered_path(dest: &str, k: u64) -> (r: String)
    ensures
        r@ == numbered_name(dest@, k),
{
    proof {
        reveal_strlit(" (");
        reveal_strlit(")");
    }
    let mut s = dest.to_owned();
    s.append(" (");
    s.append(decimal_text(k).as_str());
    s.append(")");
    s
}

} // verus!
