use vstd::prelude::*;

verus! {

/// Why an outbound connection could not be opened.
#[derive(Clone, Copy, PartialEq, Eq, Structural, Debug)]
pub enum ConnectErrorKind {
    /// The connect timeout expired.
    Timeout,
    /// The peer refused the connection or could not be reached.
    Refused,
    /// The name lookup failed.
    ResolutionFailed,
    /// The name lookup returned no address.
    NotFound,
    /// Any other failure.
    Other,
}

/// The SOCKS5 reply code that reports a failed connect.
pub open spec fn spec_reply_code(kind: ConnectErrorKind) -> u8 {
    match kind {
        ConnectErrorKind::Refused => 0x05u8,
        ConnectErrorKind::ResolutionFailed => 0x04u8,
        ConnectErrorKind::NotFound => 0x04u8,
        ConnectErrorKind::Timeout => 0x01u8,
        ConnectErrorKind::Other => 0x01u8,
    }
}

impl ConnectErrorKind {
    /// The SOCKS5 reply code that reports this failure: connection refused (5), host unreachable
    /// (4) for a failed lookup, general failure (1) otherwise.
    pub fn reply_code(self) -> (r: u8)
        ensures
            r == spec_reply_code(self),
    {
        match self {
            ConnectErrorKind::Refused => 0x05,
            ConnectErrorKind::ResolutionFailed => 0x04,
            ConnectErrorKind::NotFound => 0x04,
            ConnectErrorKind::Timeout => 0x01,
            ConnectErrorKind::Other => 0x01,
        }
    }
}

} // verus!
