use yushi_core::{AppConfig, CompletedTask, DownloadError, DownloadHistory, UpdateInfo};

fn record(id: &str, url: &str, dest: &str) -> CompletedTask {
    CompletedTask {
        id: id.to_string(),
        url: url.to_string(),
        dest: dest.to_string(),
        total_size: 1,
        completed_at: 2,
        duration: 3,
        avg_speed: 4,
    }
}

#[test]
fn default_config_is_valid() {
    let c = AppConfig::default();
    assert!(c.validate().is_ok());
    assert_eq!(c.max_concurrent_downloads, 4);
    assert_eq!(c.max_concurrent_tasks, 3);
    assert_eq!(c.chunk_size, 10 * 1024 * 1024);
    assert_eq!(c.timeout, 30);
    assert!(!c.default_download_path.is_empty());
}

#[test]
fn each_zero_field_is_reported() {
    let base = AppConfig::default();
    let mut c = base.clone();
    c.max_concurrent_downloads = 0;
    assert_eq!(c.validate(), Err(DownloadError::ConfigError("max_concurrent_downloads must be greater than 0".to_string())));
    let mut c = base.clone();
    c.max_concurrent_tasks = 0;
    assert!(matches!(c.validate(), Err(DownloadError::ConfigError(m)) if m.contains("max_concurrent_tasks")));
    let mut c = base.clone();
    c.chunk_size = 0;
    assert!(matches!(c.validate(), Err(DownloadError::ConfigError(m)) if m.contains("chunk_size")));
    let mut c = base;
    c.timeout = 0;
    assert!(matches!(c.validate(), Err(DownloadError::ConfigError(m)) if m.contains("timeout")));
}

#[test]
fn history_is_newest_first_and_capped() {
    let mut h = DownloadHistory::default();
    h.max_history = 2;
    h.add_completed(record("1", "http://a", "/a"));
    h.add_completed(record("2", "http://b", "/b"));
    h.add_completed(record("3", "http://c", "/c"));
    let ids: Vec<&str> = h.get_all().iter().map(|t| t.id.as_str()).collect();
    assert_eq!(ids, vec!["3", "2"]);
    assert!(h.remove("2"));
    assert!(!h.remove("2"));
    assert_eq!(h.get_all().len(), 1);
    h.clear();
    assert!(h.get_all().is_empty());
    assert_eq!(DownloadHistory::default().max_history, 100);
}

#[test]
fn history_search_ignores_case() {
    let mut h = DownloadHistory::default();
    h.add_completed(record("1", "http://Example.com/File.ISO", "/downloads/file.iso"));
    h.add_completed(record("2", "http://other.org/x", "/Downloads/Movie.mkv"));
    let hits: Vec<String> = h.search("EXAMPLE").into_iter().map(|t| t.id).collect();
    assert_eq!(hits, vec!["1".to_string()]);
    let hits: Vec<String> = h.search("movie").into_iter().map(|t| t.id).collect();
    assert_eq!(hits, vec!["2".to_string()]);
    let hits: Vec<String> = h.search("DOWNLOADS").into_iter().map(|t| t.id).collect();
    assert_eq!(hits, vec!["2".to_string(), "1".to_string()]);
    assert!(h.search("nothing").is_empty());
    assert_eq!(h.search("").len(), 2);
}

#[test]
fn update_reports() {
    let none = UpdateInfo::from_check("0.1.0".to_string(), None);
    assert!(!none.available);
    assert_eq!(none.current_version, "0.1.0");
    assert_eq!(none.latest_version, None);
    let some = UpdateInfo::from_check(
        "0.1.0".to_string(),
        Some(("0.2.0".to_string(), Some("notes".to_string()), None)),
    );
    assert!(some.available);
    assert_eq!(some.latest_version.as_deref(), Some("0.2.0"));
    assert_eq!(some.body.as_deref(), Some("notes"));
    assert_eq!(some.date, None);
}
