//! Tests for history configuration and filtering.

use passmgr::shell::history::{HistoryConfig, HistoryFilter};

#[test]
fn test_history_config_default() {
    let config = HistoryConfig::default();
    assert_eq!(config.max_entries, 1000);
    assert!(config.ignore_dups);
    assert!(config.ignore_space);
}

#[test]
fn test_history_config_builder() {
    let config = HistoryConfig::new("/tmp/history".to_string())
        .with_max_entries(500)
        .with_ignore_dups(false);

    assert_eq!(config.path, "/tmp/history".to_string());
    assert_eq!(config.max_entries, 500);
    assert!(!config.ignore_dups);
}

#[test]
fn test_history_filter_empty() {
    let config = HistoryConfig::default();
    let mut filter = HistoryFilter::new(config);

    assert!(!filter.should_add(""));
    assert!(!filter.should_add("   "));
}

#[test]
fn test_history_filter_duplicates() {
    let config = HistoryConfig::default();
    let mut filter = HistoryFilter::new(config);

    assert!(filter.should_add("add key value"));
    assert!(!filter.should_add("add key value"));
    assert!(filter.should_add("get key"));
    assert!(filter.should_add("add key value"));
}

#[test]
fn test_history_filter_no_duplicate_check() {
    let config = HistoryConfig::default().with_ignore_dups(false);
    let mut filter = HistoryFilter::new(config);

    assert!(filter.should_add("add key value"));
    assert!(filter.should_add("add key value"));
}

#[test]
fn test_history_filter_reset() {
    let config = HistoryConfig::default();
    let mut filter = HistoryFilter::new(config);

    assert!(filter.should_add("command"));
    assert!(!filter.should_add("command"));

    filter.reset();
    assert!(filter.should_add("command"));
}
