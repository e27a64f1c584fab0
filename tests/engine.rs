use yushi_core::engine::{
    accepts_byte_ranges, choose_transfer, content_length, new_journal, numbered_path, range_header,
    reusable_journal, RetryCounter, RetryDecision, TransferPlan,
};
use yushi_core::limiter::SpeedLimiter;
use yushi_core::state::{journal_path, plan_chunks};
use yushi_core::text::{decimal_text, parse_u64};
use yushi_core::{DownloadConfig, DownloadError, DownloadMode, DownloadState};

const MIB: u64 = 1 << 20;

#[test]
fn plan_of_twenty_five_mib_in_ten_mib_chunks() {
    let chunks = plan_chunks(25 * MIB, 10 * MIB);
    let ranges: Vec<(u64, u64)> = chunks.iter().map(|c| (c.start, c.end)).collect();
    assert_eq!(
        ranges,
        vec![(0, 10485759), (10485760, 20971519), (20971520, 26214399)]
    );
    for (i, c) in chunks.iter().enumerate() {
        assert_eq!(c.index, i);
        assert_eq!(c.current, c.start);
        assert!(!c.is_finished);
    }
    let total: u64 = chunks.iter().map(|c| c.end - c.start + 1).sum();
    assert_eq!(total, 26214400);
}

#[test]
fn file_of_exactly_one_chunk() {
    let chunks = plan_chunks(4096, 4096);
    assert_eq!(chunks.len(), 1);
    assert_eq!((chunks[0].start, chunks[0].end), (0, 4095));
}

#[test]
fn file_one_byte_short_of_a_chunk() {
    let chunks = plan_chunks(4095, 4096);
    assert_eq!(chunks.len(), 1);
    assert_eq!((chunks[0].start, chunks[0].end), (0, 4094));
}

#[test]
fn one_byte_chunks() {
    let chunks = plan_chunks(3, 1);
    assert_eq!(chunks.len(), 3);
    assert_eq!((chunks[2].start, chunks[2].end), (2, 2));
}

fn ranged_config() -> DownloadConfig {
    DownloadConfig { chunk_size: 10 * MIB, max_concurrent: 4, ..DownloadConfig::default() }
}

fn write_all(state: &mut DownloadState, index: usize, mut left: u64, item: u64) {
    while left > 0 {
        let n = left.min(item);
        state.record_write(index, n).unwrap();
        left -= n;
    }
}

#[test]
fn resume_fetches_only_the_unfinished_tail() {
    let url = "http://example.com/file.bin";
    let mut state = new_journal(url, &ranged_config(), Some(25 * MIB), true).unwrap();
    assert_eq!(state.chunks.len(), 3);
    for i in 0..2 {
        write_all(&mut state, i, 10 * MIB, 64 * 1024);
        assert!(state.finish_chunk(i));
    }
    write_all(&mut state, 2, MIB, 64 * 1024);
    assert_eq!(state.downloaded(), 21 * MIB);

    let resumed = reusable_journal(Some(state), url).unwrap();
    assert_eq!(resumed.pending_chunks(), vec![2]);
    assert_eq!(resumed.pending_range(0), None);
    assert_eq!(resumed.pending_range(1), None);
    let (start, end) = resumed.pending_range(2).unwrap();
    assert_eq!(range_header(start, end), "bytes=22020096-26214399");
}

#[test]
fn completed_download_accounts_for_every_byte() {
    let mut state = new_journal("u", &ranged_config(), Some(25 * MIB), true).unwrap();
    for i in 0..3 {
        let c = state.chunks[i];
        write_all(&mut state, i, c.end - c.start + 1, 1 << 20);
        assert!(state.finish_chunk(i));
    }
    assert!(state.is_complete());
    assert_eq!(state.downloaded(), 26214400);
    assert!(state.pending_chunks().is_empty());
}

#[test]
fn write_past_the_chunk_end_is_refused() {
    let mut state = new_journal("u", &ranged_config(), Some(100), true).unwrap();
    assert!(state.record_write(0, 60).is_ok());
    assert!(matches!(state.record_write(0, 41), Err(DownloadError::OriginError(_))));
    assert_eq!(state.chunks[0].current, 60);
    assert!(!state.finish_chunk(0));
    assert!(state.record_write(0, 40).is_ok());
    assert!(state.finish_chunk(0));
    assert!(matches!(state.record_write(0, 1), Err(DownloadError::OriginError(_))));
}

#[test]
fn journal_for_another_url_is_discarded() {
    let state = new_journal("http://a/x", &ranged_config(), Some(1000), true).unwrap();
    assert!(reusable_journal(Some(state.clone()), "http://b/x").is_none());
    assert!(reusable_journal(Some(state), "http://a/x").is_some());
    assert!(reusable_journal(None, "http://a/x").is_none());
}

#[test]
fn damaged_journal_is_discarded() {
    let mut state = new_journal("u", &ranged_config(), Some(25 * MIB), true).unwrap();
    assert!(state.is_valid());
    state.chunks[1].start += 1;
    assert!(!state.is_valid());
    assert!(reusable_journal(Some(state), "u").is_none());
}

#[test]
fn unknown_length_streams() {
    assert_eq!(
        choose_transfer(DownloadMode::Auto, None, true),
        Ok(TransferPlan::Streaming { total_size: None })
    );
    let state = new_journal("u", &DownloadConfig::default(), None, false).unwrap();
    assert!(state.is_streaming);
    assert!(state.chunks.is_empty());
    assert_eq!(state.total_size, None);
}

#[test]
fn no_range_support_or_forced_streaming_streams() {
    assert_eq!(
        choose_transfer(DownloadMode::Auto, Some(10), false),
        Ok(TransferPlan::Streaming { total_size: Some(10) })
    );
    assert_eq!(
        choose_transfer(DownloadMode::Streaming, Some(10), true),
        Ok(TransferPlan::Streaming { total_size: Some(10) })
    );
    assert_eq!(
        choose_transfer(DownloadMode::Auto, Some(10), true),
        Ok(TransferPlan::Ranged { total_size: 10 })
    );
}

#[test]
fn empty_file_is_an_origin_error() {
    assert!(matches!(
        choose_transfer(DownloadMode::Auto, Some(0), true),
        Err(DownloadError::OriginError(_))
    ));
    assert!(matches!(
        new_journal("u", &DownloadConfig::default(), Some(0), true),
        Err(DownloadError::OriginError(_))
    ));
}

#[test]
fn zero_chunk_size_is_a_config_error() {
    let config = DownloadConfig { chunk_size: 0, ..DownloadConfig::default() };
    assert!(matches!(new_journal("u", &config, Some(10), true), Err(DownloadError::ConfigError(_))));
    assert!(matches!(config.validate(), Err(DownloadError::ConfigError(_))));
    assert!(DownloadConfig::default().validate().is_ok());
    let config = DownloadConfig { speed_limit: Some(0), ..DownloadConfig::default() };
    assert!(config.validate().is_err());
}

#[test]
fn header_values() {
    assert_eq!(content_length(Some("26214400")), Some(26214400));
    assert_eq!(content_length(Some("+7")), Some(7));
    assert_eq!(content_length(Some("")), None);
    assert_eq!(content_length(Some("12a")), None);
    assert_eq!(content_length(Some("18446744073709551615")), Some(u64::MAX));
    assert_eq!(content_length(Some("18446744073709551616")), None);
    assert_eq!(content_length(None), None);
    assert_eq!(parse_u64("0"), Some(0));
    assert!(accepts_byte_ranges(Some("bytes")));
    assert!(accepts_byte_ranges(Some("none, bytes")));
    assert!(!accepts_byte_ranges(Some("none")));
    assert!(!accepts_byte_ranges(None));
}

#[test]
fn retry_cap() {
    let mut c = RetryCounter::new();
    for _ in 0..5 {
        assert_eq!(c.record_failure(), RetryDecision::RetryAfter { secs: 2 });
    }
    assert_eq!(c.record_failure(), RetryDecision::GiveUp);
    assert_eq!(c.failures, 6);
}

#[test]
fn speed_limit_paces_ten_mib_at_one_mib_per_second() {
    let mut limiter = SpeedLimiter::new(MIB, 0);
    let mut now: u64 = 0;
    let item = 64 * 1024;
    let mut sent: u64 = 0;
    while sent < 10 * MIB {
        assert!(limiter.can_wait(item, now));
        now += limiter.wait(item, now);
        sent += item;
    }
    assert!(now >= 9500 && now <= 12000, "took {now} ms");
}

#[test]
fn speed_limit_grants_refilled_tokens_without_sleeping() {
    let mut limiter = SpeedLimiter::new(1000, 0);
    assert_eq!(limiter.wait(500, 1000), 0);
    assert_eq!(limiter.tokens, 500);
    assert_eq!(limiter.wait(1000, 1000), 500);
    assert_eq!(limiter.tokens, 0);
    assert_eq!(limiter.last_ms, 1500);
}

#[test]
fn names_and_paths() {
    assert_eq!(journal_path("/tmp/video.mp4"), "/tmp/video.mp4.json");
    assert_eq!(numbered_path("/tmp/a.bin", 2), "/tmp/a.bin (2)");
    assert_eq!(decimal_text(0), "0");
    assert_eq!(decimal_text(1234567890), "1234567890");
    assert_eq!(decimal_text(u64::MAX), "18446744073709551615");
}

#[test]
fn headers_keep_one_value_per_name() {
    let mut config = DownloadConfig::default();
    config.set_header("Accept".to_string(), "*/*".to_string());
    config.set_header("X-Token".to_string(), "a".to_string());
    config.set_header("Accept".to_string(), "text/plain".to_string());
    assert_eq!(
        config.headers,
        vec![
            ("Accept".to_string(), "text/plain".to_string()),
            ("X-Token".to_string(), "a".to_string()),
        ]
    );
}
