use vstd::prelude::*;

verus! {

/// The largest accepted buffer size.
pub const MAX_BUFFER_SIZE: usize = 65536;

/// What is wrong with a configuration.
#[derive(PartialEq, Eq, Structural, Debug, Clone, Copy)]
pub enum ConfigProblem {
    /// The listen address is empty.
    EmptyListenAddress,
    /// The listen address is not `ip:port`.
    InvalidListenAddress,
    /// The buffer size is not in `1..=65536`.
    InvalidBufferSize(usize),
}

/// Configuration errors
#[derive(Debug)]
pub enum ConfigError {
    /// The file could not be read; the reason.
    FileReadError(String),
    /// The file could not be parsed; the reason.
    ParseError(String),
    /// The values are not acceptable.
    InvalidConfig(ConfigProblem),
    /// The configuration loader failed; the reason.
    ConfigLibError(String),
}

/// Log configuration
pub struct LoggerConfig {
    /// Log level
    pub level: String,
    /// Log file path
    pub path: String,
    /// Log file archive pattern
    pub archive_pattern: String,
    /// Number of log files to keep
    pub file_count: u32,
    /// Size of each log file (MB)
    pub file_size: u64,
}

/// Configuration structure
pub struct Config {
    /// Listen address
    pub listen_address: String,
    /// User names with their passwords
    pub users: Vec<(String, String)>,
    /// Log configuration
    pub log: LoggerConfig,
    /// Buffer size
    pub buffer_size: usize,
    /// The most client connections served at once
    pub max_connections: usize,
    /// Connect timeout, in seconds
    pub connect_timeout_seconds: u64,
}

/// Default listen address
pub fn default_listen_address() -> (r: String)
    ensures
        r@ == "127.0.0.1:1080"@,
{
    "127.0.0.1:1080".to_owned()
}

/// Default log level
pub fn default_log_level() -> (r: String)
    ensures
        r@ == "Info"@,
{
    "Info".to_owned()
}

/// Default log path
pub fn default_log_path() -> (r: String)
    ensures
        r@ == "logs/rust-proxy.log"@,
{
    "logs/rust-proxy.log".to_owned()
}

/// Default archive pattern
pub fn default_archive_pattern() -> (r: String)
    ensures
        r@ == "logs/archive/rust-proxy-{}.log"@,
{
    "logs/archive/rust-proxy-{}.log".to_owned()
}

/// Default file count
pub fn default_file_count() -> (r: u32)
    ensures
        r == 5,
{
    5
}

/// Default file size in MB
pub fn default_file_size() -> (r: u64)
    ensures
        r == 10,
{
    10
}

/// Default buffer size
pub fn default_buffer_size() -> (r: usize)
    ensures
        r == 4096,
{
    4096
}

/// Default limit of client connections served at once
pub fn default_max_connections() -> (r: usize)
    ensures
        r == 1024,
{
    1024
}

/// Default connect timeout, in seconds
pub fn default_connect_timeout_seconds() -> (r: u64)
    ensures
        r == 10,
{
    10
}

impl Default for LoggerConfig {
    fn default() -> (r: Self)
        ensures
            r.level@ == "Info"@,
            r.path@ == "logs/rust-proxy.log"@,
            r.archive_pattern@ == "logs/archive/rust-proxy-{}.log"@,
            r.file_count == 5,
            r.file_size == 10,
    {
        LoggerConfig {
            level: default_log_level(),
            path: default_log_path(),
            archive_pattern: default_archive_pattern(),
            file_count: default_file_count(),
            file_size: default_file_size(),
        }
    }
}

/// The problem with a configuration, if any, given whether its listen address parses as a
/// socket address.
pub open spec fn config_problem(listen_address: Seq<char>, address_parses: bool, buffer_size: usize) -> Option<ConfigProblem> {
    if listen_address.len() == 0 {
        Some(ConfigProblem::EmptyListenAddress)
    } else if !address_parses {
        Some(ConfigProblem::InvalidListenAddress)
    } else if buffer_size == 0 || buffer_size > MAX_BUFFER_SIZE {
        Some(ConfigProblem::InvalidBufferSize(buffer_size))
    } else {
        None
    }
}

impl Config {
    /// Validate if configuration is valid. Whether the listen address parses as a socket address
    /// is told by the caller.
    pub fn validate(&self, listen_address_parses: bool) -> (r: Result<(), ConfigError>)
        ensures
            match config_problem(self.listen_address@, listen_address_parses, self.buffer_size) {
                Some(p) => r matches Err(ConfigError::InvalidConfig(q)) && q == p,
                None => r is Ok,
            },
    {
        if self.listen_address.as_str().is_empty() {
            return Err(ConfigError::InvalidConfig(ConfigProblem::EmptyListenAddress));
        }
        if !listen_address_parses {
            return Err(ConfigError::InvalidConfig(ConfigProblem::InvalidListenAddress));
        }
        if self.buffer_size == 0 || self.buffer_size > MAX_BUFFER_SIZE {
            return Err(ConfigError::InvalidConfig(ConfigProblem::InvalidBufferSize(self.buffer_size)));
        }
        Ok(())
    }
}

} // verus!
