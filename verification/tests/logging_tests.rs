//! Tests for the log configuration.

use passmgr::logging::{LogConfig, LogLevel};

#[test]
fn test_log_config_default() {
    let config = LogConfig::default();
    assert_eq!(config.level, LogLevel::Info);
    assert_eq!(config.max_size, 10 * 1024 * 1024);
}

#[test]
fn test_log_config_builder() {
    let config = LogConfig::new("/tmp/test.log".to_string())
        .with_level(LogLevel::Trace)
        .with_max_size(1024);

    assert_eq!(config.path, "/tmp/test.log".to_string());
    assert_eq!(config.level, LogLevel::Trace);
    assert_eq!(config.max_size, 1024);
}
