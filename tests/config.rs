use rust_proxy::config::{
    default_archive_pattern, default_buffer_size, default_connect_timeout_seconds,
    default_file_count, default_file_size, default_listen_address, default_log_level,
    default_log_path, default_max_connections, Config, ConfigError, ConfigProblem, LoggerConfig,
};

fn config(address: &str, buffer_size: usize) -> Config {
    Config {
        listen_address: address.to_string(),
        users: Vec::new(),
        log: LoggerConfig::default(),
        buffer_size,
        max_connections: default_max_connections(),
        connect_timeout_seconds: default_connect_timeout_seconds(),
    }
}

#[test]
fn defaults() {
    assert_eq!(default_listen_address(), "127.0.0.1:1080");
    assert_eq!(default_log_level(), "Info");
    assert_eq!(default_log_path(), "logs/rust-proxy.log");
    assert_eq!(default_archive_pattern(), "logs/archive/rust-proxy-{}.log");
    assert_eq!(default_file_count(), 5);
    assert_eq!(default_file_size(), 10);
    assert_eq!(default_buffer_size(), 4096);
    let log = LoggerConfig::default();
    assert_eq!(log.level, "Info");
    assert_eq!(log.file_count, 5);
}

#[test]
fn validate_accepts_a_good_config() {
    assert!(config("127.0.0.1:1080", 4096).validate(true).is_ok());
    assert!(config("127.0.0.1:1080", 1).validate(true).is_ok());
    assert!(config("127.0.0.1:1080", 65536).validate(true).is_ok());
}

#[test]
fn validate_rejects_bad_values() {
    assert!(matches!(
        config("", 4096).validate(true),
        Err(ConfigError::InvalidConfig(ConfigProblem::EmptyListenAddress))
    ));
    assert!(matches!(
        config("nowhere", 4096).validate(false),
        Err(ConfigError::InvalidConfig(ConfigProblem::InvalidListenAddress))
    ));
    assert!(matches!(
        config("127.0.0.1:1080", 0).validate(true),
        Err(ConfigError::InvalidConfig(ConfigProblem::InvalidBufferSize(0)))
    ));
    assert!(matches!(
        config("127.0.0.1:1080", 65537).validate(true),
        Err(ConfigError::InvalidConfig(ConfigProblem::InvalidBufferSize(65537)))
    ));
}
