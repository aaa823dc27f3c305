use std::sync::Arc;
use vstd::prelude::*;

use crate::auth::AuthManager;
use crate::conn::{is_suffix, BufferedConnection};
use crate::http::{HttpProxy, HttpProxyError};
use crate::socks5::{Socks5Proxy, Socks5ProxyError};

verus! {

/// How long the acceptor waits after a failed accept, in milliseconds.
pub const ACCEPT_RETRY_DELAY_MS: u64 = 100;

/// Errors of a proxied connection.
#[derive(Debug)]
pub enum TcpProxyError {
    /// The client closed the connection before it sent a byte.
    NoDataReceived,
    /// The first byte names neither SOCKS5 nor an HTTP method.
    UnsupportedProtocol(u8),
    /// The HTTP session failed.
    HttpProxyError(HttpProxyError),
    /// The SOCKS5 session failed.
    Socks5ProxyError(Socks5ProxyError),
}

/// The protocol that a client speaks.
#[derive(PartialEq, Eq, Structural, Debug, Clone, Copy)]
pub enum Protocol {
    /// SOCKS version 5.
    Socks5,
    /// An HTTP proxy request.
    Http,
}

/// The protocol that a first byte announces: `0x05` for SOCKS5, an ASCII letter for HTTP.
pub open spec fn protocol_of(first: u8) -> Option<Protocol> {
    if first == 0x05u8 {
        Some(Protocol::Socks5)
    } else if (0x41u8 <= first <= 0x5Au8) || (0x61u8 <= first <= 0x7Au8) {
        Some(Protocol::Http)
    } else {
        None
    }
}

/// Tells the protocol by the first buffered byte, which it reads and puts back.
pub fn sniff_protocol(conn: &mut BufferedConnection) -> (r: Result<Protocol, TcpProxyError>)
    requires
        old(conn).wf(),
    ensures
        final(conn).wf(),
        final(conn).pending() == old(conn).pending(),
        final(conn).received() == old(conn).received(),
        final(conn).delivered() == old(conn).delivered(),
        final(conn).faithful() == old(conn).faithful(),
        final(conn).outgoing() == old(conn).outgoing(),
        old(conn).pending().len() == 0 ==> r matches Err(TcpProxyError::NoDataReceived),
        old(conn).pending().len() > 0 ==> match protocol_of(old(conn).pending()[0]) {
            Some(p) => r == Ok::<Protocol, TcpProxyError>(p),
            None => r matches Err(TcpProxyError::UnsupportedProtocol(b)) && b == old(
                conn,
            ).pending()[0],
        },
{
    let first = match conn.read_from_buffer(1) {
        Some(bytes) => bytes,
        None => {
            return Err(TcpProxyError::NoDataReceived);
        },
    };
    let b = first[0];
    let ghost mid = *conn;
    conn.unread(first.as_slice());
    proof {
        let d = mid.delivered();
        assert(d.subrange(d.len() - 1, d.len() as int) =~= first@);
        assert(is_suffix(first@, d));
        assert(d.take(d.len() - 1) =~= old(conn).delivered());
        assert(first@ + old(conn).pending().skip(1) =~= old(conn).pending());
    }
    if b == 0x05 {
        Ok(Protocol::Socks5)
    } else if (0x41 <= b && b <= 0x5A) || (0x61 <= b && b <= 0x7A) {
        Ok(Protocol::Http)
    } else {
        Err(TcpProxyError::UnsupportedProtocol(b))
    }
}

/// What the accept loop reports.
pub enum AcceptEvent {
    /// A client connection was accepted.
    Accepted,
    /// The accept call failed.
    AcceptFailed,
    /// A handler task finished.
    HandlerDone,
    /// The shutdown signal came.
    Shutdown,
}

/// What the accept loop does next.
#[derive(PartialEq, Eq, Structural, Debug, Clone, Copy)]
pub enum AcceptAction {
    /// Run a handler for the accepted connection.
    Spawn,
    /// Close the accepted connection at once: the limit is reached, or the acceptor stopped.
    Reject,
    /// Wait this many milliseconds, then accept again.
    Pause(u64),
    /// Accept again.
    Continue,
    /// Accept no more; running handlers finish on their own.
    Stop,
}

/// One step of the accept loop's bookkeeping: from `live` running handlers, the limit `max` and
/// whether it still accepts, to the new count, the new flag and what to do.
pub open spec fn accept_transition(live: int, max: int, running: bool, event: AcceptEvent) -> (
    int,
    bool,
    AcceptAction,
) {
    match event {
        AcceptEvent::Accepted => if running && live < max {
            (live + 1, running, AcceptAction::Spawn)
        } else {
            (live, running, AcceptAction::Reject)
        },
        AcceptEvent::AcceptFailed => (live, running, AcceptAction::Pause(ACCEPT_RETRY_DELAY_MS)),
        AcceptEvent::HandlerDone => (if live > 0 {
            live - 1
        } else {
            0
        }, running, AcceptAction::Continue),
        AcceptEvent::Shutdown => (live, false, AcceptAction::Stop),
    }
}

/// The number of running handlers after a run of events.
pub open spec fn live_after(live: int, max: int, running: bool, events: Seq<AcceptEvent>) -> int
    decreases events.len(),
{
    if events.len() == 0 {
        live
    } else {
        let t = accept_transition(live, max, running, events[0]);
        live_after(t.0, max, t.1, events.skip(1))
    }
}

/// Concurrency bound: whatever events come, in whatever order, the accept loop never has more
/// handlers running than the limit.
pub proof fn lemma_concurrency_bound(live: int, max: int, running: bool, events: Seq<AcceptEvent>)
    requires
        0 <= live <= max,
    ensures
        0 <= live_after(live, max, running, events) <= max,
    decreases events.len(),
{
    if events.len() > 0 {
        let t = accept_transition(live, max, running, events[0]);
        lemma_concurrency_bound(t.0, max, t.1, events.skip(1));
    }
}

/// The accept loop's bookkeeping: how many handlers run, against the limit.
pub struct Acceptor {
    max_connections: usize,
    live: usize,
    running: bool,
}

impl Acceptor {
    pub closed spec fn max_connections(&self) -> usize {
        self.max_connections
    }

    /// The number of handler tasks that run.
    pub closed spec fn live(&self) -> usize {
        self.live
    }

    /// False once the shutdown signal came.
    pub closed spec fn running(&self) -> bool {
        self.running
    }

    /// No more handlers run than the limit allows.
    pub closed spec fn wf(&self) -> bool {
        self.live <= self.max_connections
    }

    pub fn new(max_connections: usize) -> (r: Self)
        ensures
            r.wf(),
            r.max_connections() == max_connections,
            r.live() == 0,
            r.running(),
    {
        Acceptor { max_connections, live: 0, running: true }
    }

    /// The number of handler tasks that run.
    pub fn live_handlers(&self) -> (r: usize)
        ensures
            r == self.live(),
    {
        self.live
    }

    /// Takes one event of the accept loop.
    pub fn step(&mut self, event: AcceptEvent) -> (r: AcceptAction)
        requires
            old(self).wf(),
        ensures
            final(self).wf(),
            final(self).max_connections() == old(self).max_connections(),
            final(self).live() <= final(self).max_connections(),
            ({
                let t = accept_transition(
                    old(self).live() as int,
                    old(self).max_connections() as int,
                    old(self).running(),
                    event,
                );
                final(self).live() == t.0 && final(self).running() == t.1 && r == t.2
            }),
    {
        match event {
            AcceptEvent::Accepted => {
                if self.running && self.live < self.max_connections {
                    self.live = self.live + 1;
                    AcceptAction::Spawn
                } else {
                    AcceptAction::Reject
                }
            },
            AcceptEvent::AcceptFailed => AcceptAction::Pause(ACCEPT_RETRY_DELAY_MS),
            AcceptEvent::HandlerDone => {
                if self.live > 0 {
                    self.live = self.live - 1;
                }
                AcceptAction::Continue
            },
            AcceptEvent::Shutdown => {
                self.running = false;
                AcceptAction::Stop
            },
        }
    }
}

/// Relies on `Arc::clone`: the clone points to the same manager.
#[verifier::external_body]
fn share(a: &Arc<AuthManager>) -> (r: Arc<AuthManager>)
    ensures
        *r == **a,
{
    Arc::clone(a)
}

/// The proxy: one listening port that serves SOCKS5 and HTTP clients.
pub struct TcpProxy {
    auth_manager: Arc<AuthManager>,
    buffer_size: usize,
    max_connections: usize,
    connect_timeout_secs: u64,
}

impl TcpProxy {
    pub closed spec fn auth(&self) -> AuthManager {
        *self.auth_manager
    }

    pub closed spec fn spec_buffer_size(&self) -> usize {
        self.buffer_size
    }

    pub closed spec fn spec_max_connections(&self) -> usize {
        self.max_connections
    }

    pub closed spec fn spec_connect_timeout_secs(&self) -> u64 {
        self.connect_timeout_secs
    }

    pub fn new(
        auth_manager: Arc<AuthManager>,
        buffer_size: usize,
        max_connections: usize,
        connect_timeout_secs: u64,
    ) -> (r: Self)
        ensures
            r.auth() == *auth_manager,
            r.spec_buffer_size() == buffer_size,
            r.spec_max_connections() == max_connections,
            r.spec_connect_timeout_secs() == connect_timeout_secs,
    {
        TcpProxy { auth_manager, buffer_size, max_connections, connect_timeout_secs }
    }

    pub fn buffer_size(&self) -> (r: usize)
        ensures
            r == self.spec_buffer_size(),
    {
        self.buffer_size
    }

    pub fn connect_timeout_secs(&self) -> (r: u64)
        ensures
            r == self.spec_connect_timeout_secs(),
    {
        self.connect_timeout_secs
    }

    /// The bookkeeping for a new accept loop.
    pub fn acceptor(&self) -> (r: Acceptor)
        ensures
            r.wf(),
            r.max_connections() == self.spec_max_connections(),
            r.live() == 0,
            r.running(),
    {
        Acceptor::new(self.max_connections)
    }

    /// A SOCKS5 proxy that consults this proxy's users.
    pub fn socks5_proxy(&self) -> (r: Socks5Proxy)
        ensures
            r.auth() == self.auth(),
    {
        Socks5Proxy::new(share(&self.auth_manager))
    }

    /// An HTTP proxy that consults this proxy's users.
    pub fn http_proxy(&self) -> (r: HttpProxy)
        ensures
            r.auth() == self.auth(),
    {
        HttpProxy::new(share(&self.auth_manager))
    }
}

} // verus!
