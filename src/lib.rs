//! A proxy that serves SOCKS5 and HTTP clients on one port: the byte buffer in front of each
//! stream, the two protocol sessions, the dispatch on the first byte, the accept loop's limit on
//! running handlers and the splice's half-close rules. The I/O around them is the caller's.

pub mod auth;
pub mod config;
pub mod conn;
pub mod dial;
pub mod forward;
pub mod http;
pub mod http_parse;
pub mod socks5;
pub mod tcp;
pub mod utils;
