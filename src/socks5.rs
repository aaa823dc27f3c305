use std::sync::Arc;
use vstd::prelude::*;
use vstd::utf8::*;

use crate::auth::{bcrypt_verdict, AuthManager};
use crate::conn::{copy_range, lemma_no_step, stepped, utf8_to_string, BufferedConnection};
use crate::dial::{spec_reply_code, ConnectErrorKind};

verus! {

/// Method code: no authentication required.
pub const METHOD_NO_AUTH: u8 = 0x00;

/// Method code: user name and password.
pub const METHOD_USER_PASS: u8 = 0x02;

/// Method code: no acceptable method.
pub const METHOD_NONE: u8 = 0xFF;

/// SOCKS5 errors
#[derive(Debug)]
pub enum Socks5ProxyError {
    /// The version byte is not 5.
    InvalidVersion,
    /// The client offers no method that the proxy accepts.
    NoSupportedAuthMethod,
    /// The sub-negotiation version byte is not 1.
    InvalidAuthMethod,
    /// The credentials were refused.
    AuthenticationFailed,
    /// The client closed the connection in the middle of a message.
    ConnectionClosed,
    /// The command is not CONNECT.
    UnsupportedCommand,
    /// The address type is not 1, 3 or 4.
    InvalidAddressType,
    /// The target could not be reached.
    ConnectTargetFailed(ConnectErrorKind),
    /// A user name, password or domain name is not UTF-8.
    InvalidUtf8,
    /// An event came that the session was not waiting for.
    UnexpectedEvent,
}

/// The target of a CONNECT request.
#[derive(Debug)]
pub enum TargetAddr {
    /// Four address bytes and a port.
    Ipv4(Vec<u8>, u16),
    /// A domain name and a port.
    Domain(String, u16),
    /// Sixteen address bytes and a port.
    Ipv6(Vec<u8>, u16),
}

/// Where a SOCKS5 session stands.
#[derive(PartialEq, Eq, Structural)]
pub enum Socks5State {
    /// Waiting for the greeting.
    Greeting,
    /// Waiting for the user name and password.
    SubNegotiation,
    /// Waiting for the verdict on the credentials.
    AwaitingAuth,
    /// Waiting for the request.
    Request,
    /// Waiting for the outbound connection.
    Connecting,
    /// Both streams are handed to the forwarder.
    Established,
    /// The session is over.
    Closed,
}

/// What the session reports to the code that runs its I/O.
pub enum Socks5Event {
    /// New bytes were received, or the session starts.
    Data,
    /// The verdict on the credentials of the last `Authenticate` action.
    AuthVerdict(bool),
    /// The connection of the last `Connect` action is open.
    Connected,
    /// The connection of the last `Connect` action failed.
    ConnectFailed(ConnectErrorKind),
}

/// What the code that runs the session's I/O does next, after it has written out what the
/// connection queued.
pub enum Socks5Action {
    /// Read more bytes from the client, then report `Data`.
    NeedMore,
    /// Report `Data` again: the buffered bytes may hold the next message.
    Proceed,
    /// Check these credentials, then report `AuthVerdict`.
    Authenticate(String, String),
    /// Open a connection to this target, then report `Connected` or `ConnectFailed`.
    Connect(TargetAddr),
    /// Hand the client and the target to the forwarder.
    Splice,
    /// Close the connection, for this reason.
    Close(Socks5ProxyError),
}

/// A reply to a request: version 5, the code, a reserved zero, address type IPv4, address
/// 0.0.0.0 and port 0.
pub open spec fn reply_bytes(code: u8) -> Seq<u8> {
    seq![0x05u8, code, 0x00u8, 0x01u8, 0x00u8, 0x00u8, 0x00u8, 0x00u8, 0x00u8, 0x00u8]
}

/// The method that the proxy selects from those the client offers.
pub open spec fn select_method(methods: Seq<u8>, has_users: bool) -> u8 {
    if has_users {
        if methods.contains(METHOD_USER_PASS) {
            METHOD_USER_PASS
        } else {
            METHOD_NONE
        }
    } else if methods.contains(METHOD_NO_AUTH) {
        METHOD_NO_AUTH
    } else if methods.contains(METHOD_USER_PASS) {
        METHOD_USER_PASS
    } else {
        METHOD_NONE
    }
}

/// A port written as two bytes, most significant first.
pub open spec fn be_port(hi: u8, lo: u8) -> u16 {
    (hi as int * 256 + lo as int) as u16
}

/// The length of a request whose first `b.len()` bytes are buffered, once that can be told.
pub open spec fn request_len(b: Seq<u8>) -> int
    recommends
        b.len() >= 4,
{
    if b[3] == 0x01u8 {
        10
    } else if b[3] == 0x04u8 {
        22
    } else {
        7 + b[4]
    }
}

/// What reading the greeting does: nothing until it is complete; then the method selection, queued as `05 <method>`.
pub open spec fn greeting_step(has_users: bool, c0: BufferedConnection, c1: BufferedConnection, s1: Socks5State, r: Socks5Action) -> bool {
    let b = c0.pending();
    if b.len() < 2 || (b[0] == 0x05u8 && b.len() < 2 + b[1]) {
        r is NeedMore && s1 == Socks5State::Greeting && stepped(
            c0,
            c1,
            0,
            Seq::empty(),
        )
    } else if b[0] != 0x05u8 {
        r matches Socks5Action::Close(Socks5ProxyError::InvalidVersion)
            && s1 == Socks5State::Closed && stepped(
            c0,
            c1,
            0,
            Seq::empty(),
        )
    } else {
        let m = select_method(b.subrange(2, 2 + b[1]), has_users);
        &&& stepped(c0, c1, 2 + b[1], seq![0x05u8, m])
        &&& (m == METHOD_NONE ==> (r matches Socks5Action::Close(
            Socks5ProxyError::NoSupportedAuthMethod,
        ) && s1 == Socks5State::Closed))
        &&& m == METHOD_NO_AUTH ==> r is Proceed && s1
            == Socks5State::Request
        &&& m == METHOD_USER_PASS ==> r is Proceed && s1
            == Socks5State::SubNegotiation
    }
}

/// What reading the user name and password does: nothing until they are complete; then a request for a verdict on them.
pub open spec fn sub_negotiation_step(c0: BufferedConnection, c1: BufferedConnection, s1: Socks5State, r: Socks5Action) -> bool {
    let b = c0.pending();
    if b.len() < 2 || (b[0] == 0x01u8 && (b.len() < 3 + b[1] || b.len() < 3 + b[1]
        + b[2 + b[1]])) {
        r is NeedMore && s1 == Socks5State::SubNegotiation && stepped(
            c0,
            c1,
            0,
            Seq::empty(),
        )
    } else if b[0] != 0x01u8 {
        r matches Socks5Action::Close(Socks5ProxyError::InvalidAuthMethod)
            && s1 == Socks5State::Closed && stepped(
            c0,
            c1,
            0,
            Seq::empty(),
        )
    } else {
        let ulen = b[1] as int;
        let plen = b[2 + ulen] as int;
        let user = b.subrange(2, 2 + ulen);
        let pass = b.subrange(3 + ulen, 3 + ulen + plen);
        &&& stepped(c0, c1, 3 + ulen + plen, Seq::empty())
        &&& (valid_utf8(user) && valid_utf8(pass) ==> (r matches Socks5Action::Authenticate(u, p)
            && u@ == decode_utf8(user) && p@ == decode_utf8(pass)
            && s1 == Socks5State::AwaitingAuth))
        &&& (!(valid_utf8(user) && valid_utf8(pass)) ==> (r matches Socks5Action::Close(
            Socks5ProxyError::InvalidUtf8,
        ) && s1 == Socks5State::Closed))
    }
}

/// What reading a request does: nothing until it is complete; then a connect to its target, or a reply with code 7 or 8 and a close.
pub open spec fn request_step(c0: BufferedConnection, c1: BufferedConnection, s1: Socks5State, r: Socks5Action) -> bool {
    let b = c0.pending();
    if b.len() < 4 || (b[0] == 0x05u8 && b[1] == 0x01u8 && (b[3] == 0x01u8 || b[3]
        == 0x03u8 || b[3] == 0x04u8) && (b.len() < 5 || b.len() < request_len(b))) {
        r is NeedMore && s1 == Socks5State::Request && stepped(
            c0,
            c1,
            0,
            Seq::empty(),
        )
    } else if b[0] != 0x05u8 {
        r matches Socks5Action::Close(Socks5ProxyError::InvalidVersion)
            && s1 == Socks5State::Closed && stepped(
            c0,
            c1,
            0,
            Seq::empty(),
        )
    } else if b[1] != 0x01u8 {
        r matches Socks5Action::Close(Socks5ProxyError::UnsupportedCommand)
            && s1 == Socks5State::Closed && stepped(
            c0,
            c1,
            0,
            reply_bytes(0x07),
        )
    } else if !(b[3] == 0x01u8 || b[3] == 0x03u8 || b[3] == 0x04u8) {
        r matches Socks5Action::Close(Socks5ProxyError::InvalidAddressType)
            && s1 == Socks5State::Closed && stepped(
            c0,
            c1,
            0,
            reply_bytes(0x08),
        )
    } else {
        let len = request_len(b);
        let port = be_port(b[len - 2], b[len - 1]);
        &&& stepped(c0, c1, len, Seq::empty())
        &&& (b[3] == 0x01u8 ==> (r matches Socks5Action::Connect(TargetAddr::Ipv4(a, p))
            && a@ == b.subrange(4, 8) && p == port))
        &&& (b[3] == 0x04u8 ==> (r matches Socks5Action::Connect(TargetAddr::Ipv6(a, p))
            && a@ == b.subrange(4, 20) && p == port))
        &&& (b[3] == 0x03u8 && valid_utf8(b.subrange(5, len - 2)) ==> (r matches Socks5Action::Connect(
            TargetAddr::Domain(d, p),
        ) && d@ == decode_utf8(b.subrange(5, len - 2)) && p == port))
        &&& (b[3] == 0x03u8 && !valid_utf8(b.subrange(5, len - 2)) ==> (r matches Socks5Action::Close(
            Socks5ProxyError::InvalidUtf8,
        )))
        &&& r is Connect ==> s1 == Socks5State::Connecting
        &&& r is Close ==> s1 == Socks5State::Closed
    }
}

/// What the verdict on the credentials does: queue `01 00` and go on to the request when they
/// were accepted, else queue `01 01` and close.
pub open spec fn verdict_step(ok: bool, c0: BufferedConnection, c1: BufferedConnection, s1: Socks5State, r: Socks5Action) -> bool {
    &&& stepped(c0, c1, 0, seq![0x01u8, if ok { 0x00u8 } else { 0x01u8 }])
    &&& ok ==> r is Proceed && s1 == Socks5State::Request
    &&& !ok ==> (r matches Socks5Action::Close(Socks5ProxyError::AuthenticationFailed) && s1
        == Socks5State::Closed)
}

/// What the outcome of the connect does: queue the success reply and splice, or queue the reply
/// with the failure's code and close.
pub open spec fn connect_step(failure: Option<ConnectErrorKind>, c0: BufferedConnection, c1: BufferedConnection, s1: Socks5State, r: Socks5Action) -> bool {
    &&& failure is None ==> r is Splice && s1 == Socks5State::Established && stepped(
        c0,
        c1,
        0,
        reply_bytes(0x00),
    )
    &&& failure matches Some(k) ==> r == Socks5Action::Close(Socks5ProxyError::ConnectTargetFailed(k))
        && s1 == Socks5State::Closed && stepped(c0, c1, 0, reply_bytes(spec_reply_code(k)))
}

/// A SOCKS5 session on one client connection, from the greeting to the splice.
pub struct Socks5Session {
    state: Socks5State,
    has_users: bool,
    authenticated: bool,
}

impl Socks5Session {
    pub closed spec fn state(&self) -> Socks5State {
        self.state
    }

    /// True when users were configured as the session started.
    pub closed spec fn has_users(&self) -> bool {
        self.has_users
    }

    /// True once the credentials given on this connection were accepted.
    pub closed spec fn authenticated(&self) -> bool {
        self.authenticated
    }

    /// Once users are configured, no request is read before the credentials were accepted.
    pub closed spec fn wf(&self) -> bool {
        &&& self.has_users && (self.state == Socks5State::Request || self.state
            == Socks5State::Connecting || self.state == Socks5State::Established) ==> self.authenticated
    }

    pub fn new(has_users: bool) -> (r: Self)
        ensures
            r.wf(),
            r.state() == Socks5State::Greeting,
            r.has_users() == has_users,
            !r.authenticated(),
    {
        Socks5Session { state: Socks5State::Greeting, has_users, authenticated: false }
    }

    /// True once the session is over.
    pub fn is_closed(&self) -> (r: bool)
        ensures
            r == (self.state() == Socks5State::Closed),
    {
        self.state == Socks5State::Closed
    }

    fn close(&mut self, e: Socks5ProxyError) -> (r: Socks5Action)
        ensures
            final(self).state() == Socks5State::Closed,
            final(self).has_users() == old(self).has_users(),
            final(self).authenticated() == old(self).authenticated(),
            r == Socks5Action::Close(e),
    {
        self.state = Socks5State::Closed;
        Socks5Action::Close(e)
    }

    /// Reads the greeting, selects a method and queues `05 <method>`.
    fn on_greeting(&mut self, conn: &mut BufferedConnection) -> (r: Socks5Action)
        requires
            old(conn).wf(),
            old(self).wf(),
            old(self).state() == Socks5State::Greeting,
        ensures
            final(self).wf(),
            final(self).has_users() == old(self).has_users(),
            final(self).authenticated() == old(self).authenticated(),
            greeting_step(old(self).has_users(), *old(conn), *final(conn), final(self).state(), r),
    {
        let ghost c0 = *conn;
        let b = conn.buffered();
        if b.len() < 2 {
            proof {
                lemma_no_step(*conn);
            }
            return Socks5Action::NeedMore;
        }
        if b[0] != 0x05 {
            proof {
                lemma_no_step(*conn);
            }
            return self.close(Socks5ProxyError::InvalidVersion);
        }
        let n = b[1] as usize;
        if b.len() < 2 + n {
            proof {
                lemma_no_step(*conn);
            }
            return Socks5Action::NeedMore;
        }
        let ghost methods = b@.subrange(2, 2 + n as int);
        let mut offers_no_auth = false;
        let mut offers_user_pass = false;
        let end: usize = 2 + n;
        let mut i: usize = 2;
        while i < end
            invariant
                2 <= i <= end,
                end == 2 + n,
                end <= b@.len(),
                methods == b@.subrange(2, 2 + n as int),
                offers_no_auth == methods.subrange(0, i - 2).contains(METHOD_NO_AUTH),
                offers_user_pass == methods.subrange(0, i - 2).contains(METHOD_USER_PASS),
            decreases end - i,
        {
            let ghost pre = methods.subrange(0, i - 2);
            let ghost post = methods.subrange(0, i + 1 - 2);
            proof {
                assert(post == pre.push(b@[i as int]));
                lemma_push_contains(pre, b@[i as int], METHOD_NO_AUTH);
                lemma_push_contains(pre, b@[i as int], METHOD_USER_PASS);
            }
            if b[i] == METHOD_NO_AUTH {
                offers_no_auth = true;
            }
            if b[i] == METHOD_USER_PASS {
                offers_user_pass = true;
            }
            i = i + 1;
        }
        assert(methods.subrange(0, n as int) == methods);
        let m = if self.has_users {
            if offers_user_pass {
                METHOD_USER_PASS
            } else {
                METHOD_NONE
            }
        } else if offers_no_auth {
            METHOD_NO_AUTH
        } else if offers_user_pass {
            METHOD_USER_PASS
        } else {
            METHOD_NONE
        };
        let _ = conn.read_from_buffer(2 + n);
        conn.write_to_buffer(&[0x05, m]);
        if m == METHOD_NONE {
            return self.close(Socks5ProxyError::NoSupportedAuthMethod);
        }
        if m == METHOD_NO_AUTH {
            self.state = Socks5State::Request;
        } else {
            self.state = Socks5State::SubNegotiation;
        }
        Socks5Action::Proceed
    }

    /// Reads `01 ULEN user PLEN pass` and asks for a verdict on the credentials.
    fn on_sub_negotiation(&mut self, conn: &mut BufferedConnection) -> (r: Socks5Action)
        requires
            old(conn).wf(),
            old(self).wf(),
            old(self).state() == Socks5State::SubNegotiation,
        ensures
            final(self).wf(),
            final(self).has_users() == old(self).has_users(),
            final(self).authenticated() == old(self).authenticated(),
            sub_negotiation_step(*old(conn), *final(conn), final(self).state(), r),
    {
        let b = conn.buffered();
        if b.len() < 2 {
            proof {
                lemma_no_step(*conn);
            }
            return Socks5Action::NeedMore;
        }
        if b[0] != 0x01 {
            proof {
                lemma_no_step(*conn);
            }
            return self.close(Socks5ProxyError::InvalidAuthMethod);
        }
        let ulen = b[1] as usize;
        if b.len() < 3 + ulen {
            proof {
                lemma_no_step(*conn);
            }
            return Socks5Action::NeedMore;
        }
        let plen = b[2 + ulen] as usize;
        if b.len() < 3 + ulen + plen {
            proof {
                lemma_no_step(*conn);
            }
            return Socks5Action::NeedMore;
        }
        let user_bytes = copy_range(b, 2, 2 + ulen);
        let pass_bytes = copy_range(b, 3 + ulen, 3 + ulen + plen);
        let _ = conn.read_from_buffer(3 + ulen + plen);
        proof {
            assert(conn.outgoing() == old(conn).outgoing() + Seq::<u8>::empty());
        }
        let user = utf8_to_string(user_bytes.as_slice());
        let pass = utf8_to_string(pass_bytes.as_slice());
        match (user, pass) {
            (Some(u), Some(p)) => {
                self.state = Socks5State::AwaitingAuth;
                Socks5Action::Authenticate(u, p)
            },
            _ => self.close(Socks5ProxyError::InvalidUtf8),
        }
    }

    /// Queues the sub-negotiation status: `01 00` for accepted credentials, `01 01` otherwise.
    fn on_auth_verdict(&mut self, conn: &mut BufferedConnection, ok: bool) -> (r: Socks5Action)
        requires
            old(conn).wf(),
            old(self).wf(),
            old(self).state() == Socks5State::AwaitingAuth,
        ensures
            final(self).wf(),
            final(self).has_users() == old(self).has_users(),
            stepped(*old(conn), *final(conn), 0, seq![0x01u8, if ok { 0x00u8 } else { 0x01u8 }]),
            ok ==> r is Proceed && final(self).state() == Socks5State::Request
                && final(self).authenticated(),
            !ok ==> (r matches Socks5Action::Close(Socks5ProxyError::AuthenticationFailed)
                && final(self).state() == Socks5State::Closed && final(self).authenticated()
                == old(self).authenticated()),
    {
        proof {
            lemma_no_step(*conn);
        }
        if ok {
            conn.write_to_buffer(&[0x01, 0x00]);
            self.authenticated = true;
            self.state = Socks5State::Request;
            Socks5Action::Proceed
        } else {
            conn.write_to_buffer(&[0x01, 0x01]);
            self.close(Socks5ProxyError::AuthenticationFailed)
        }
    }

    /// Reads a request and asks for a connection to its target. An unsupported command or address
    /// type is answered with reply code 7 or 8.
    fn on_request(&mut self, conn: &mut BufferedConnection) -> (r: Socks5Action)
        requires
            old(conn).wf(),
            old(self).wf(),
            old(self).state() == Socks5State::Request,
        ensures
            final(self).wf(),
            final(self).has_users() == old(self).has_users(),
            final(self).authenticated() == old(self).authenticated(),
            request_step(*old(conn), *final(conn), final(self).state(), r),
    {
        let b = conn.buffered();
        let ghost b0 = b@;
        proof {
            lemma_no_step(*conn);
        }
        if b.len() < 4 {
            return Socks5Action::NeedMore;
        }
        if b[0] != 0x05 {
            return self.close(Socks5ProxyError::InvalidVersion);
        }
        if b[1] != 0x01 {
            conn.write_to_buffer(&reply(0x07));
            return self.close(Socks5ProxyError::UnsupportedCommand);
        }
        let atyp = b[3];
        if atyp != 0x01 && atyp != 0x03 && atyp != 0x04 {
            conn.write_to_buffer(&reply(0x08));
            return self.close(Socks5ProxyError::InvalidAddressType);
        }
        if b.len() < 5 {
            return Socks5Action::NeedMore;
        }
        let len: usize = if atyp == 0x01 {
            10
        } else if atyp == 0x04 {
            22
        } else {
            7 + b[4] as usize
        };
        if b.len() < len {
            return Socks5Action::NeedMore;
        }
        let port: u16 = (b[len - 2] as u16) * 256 + b[len - 1] as u16;
        let target = if atyp == 0x01 {
            TargetAddr::Ipv4(copy_range(b, 4, 8), port)
        } else if atyp == 0x04 {
            TargetAddr::Ipv6(copy_range(b, 4, 20), port)
        } else {
            let name = copy_range(b, 5, len - 2);
            match utf8_to_string(name.as_slice()) {
                Some(d) => TargetAddr::Domain(d, port),
                None => {
                    let _ = conn.read_from_buffer(len);
                    proof {
                        assert(conn.outgoing() == old(conn).outgoing() + Seq::<u8>::empty());
                    }
                    return self.close(Socks5ProxyError::InvalidUtf8);
                },
            }
        };
        let _ = conn.read_from_buffer(len);
        proof {
            assert(conn.outgoing() == old(conn).outgoing() + Seq::<u8>::empty());
        }
        self.state = Socks5State::Connecting;
        Socks5Action::Connect(target)
    }

    /// Queues the reply to the request: code 0 once the target is connected, else the code of
    /// the failure.
    fn on_connect_result(&mut self, conn: &mut BufferedConnection, failure: Option<ConnectErrorKind>) -> (r: Socks5Action)
        requires
            old(conn).wf(),
            old(self).wf(),
            old(self).state() == Socks5State::Connecting,
        ensures
            final(self).wf(),
            final(self).has_users() == old(self).has_users(),
            final(self).authenticated() == old(self).authenticated(),
            failure is None ==> r is Splice && final(self).state() == Socks5State::Established
                && stepped(*old(conn), *final(conn), 0, reply_bytes(0x00)),
            failure matches Some(k) ==> r == Socks5Action::Close(
                Socks5ProxyError::ConnectTargetFailed(k),
            ) && final(self).state() == Socks5State::Closed && stepped(
                *old(conn),
                *final(conn),
                0,
                reply_bytes(spec_reply_code(k)),
            ),
    {
        proof {
            lemma_no_step(*conn);
        }
        match failure {
            None => {
                conn.write_to_buffer(&reply(0x00));
                self.state = Socks5State::Established;
                Socks5Action::Splice
            },
            Some(k) => {
                conn.write_to_buffer(&reply(k.reply_code()));
                self.close(Socks5ProxyError::ConnectTargetFailed(k))
            },
        }
    }
    /// Advances the session by one event. The caller then writes out what `conn` queued and does
    /// what the returned action says.
    pub fn step(&mut self, conn: &mut BufferedConnection, event: Socks5Event) -> (r: Socks5Action)
        requires
            old(conn).wf(),
            old(self).wf(),
        ensures
            final(self).wf(),
            final(conn).wf(),
            final(self).has_users() == old(self).has_users(),
            r is Connect ==> !final(self).has_users() || final(self).authenticated(),
            final(self).authenticated() ==> old(self).authenticated() || (old(self).state()
                == Socks5State::AwaitingAuth && event matches Socks5Event::AuthVerdict(true)),
            ({
                let c0 = *old(conn);
                let c1 = *final(conn);
                let s1 = final(self).state();
                match (old(self).state(), event) {
                    (Socks5State::Greeting, Socks5Event::Data) => greeting_step(
                        old(self).has_users(),
                        c0,
                        c1,
                        s1,
                        r,
                    ),
                    (Socks5State::SubNegotiation, Socks5Event::Data) => sub_negotiation_step(
                        c0,
                        c1,
                        s1,
                        r,
                    ),
                    (Socks5State::AwaitingAuth, Socks5Event::AuthVerdict(ok)) => verdict_step(
                        ok,
                        c0,
                        c1,
                        s1,
                        r,
                    ),
                    (Socks5State::Request, Socks5Event::Data) => request_step(c0, c1, s1, r),
                    (Socks5State::Connecting, Socks5Event::Connected) => connect_step(
                        None,
                        c0,
                        c1,
                        s1,
                        r,
                    ),
                    (Socks5State::Connecting, Socks5Event::ConnectFailed(k)) => connect_step(
                        Some(k),
                        c0,
                        c1,
                        s1,
                        r,
                    ),
                    _ => r matches Socks5Action::Close(Socks5ProxyError::UnexpectedEvent) && s1
                        == Socks5State::Closed && stepped(c0, c1, 0, Seq::empty()),
                }
            }),
    {
        match (&self.state, event) {
            (Socks5State::Greeting, Socks5Event::Data) => self.on_greeting(conn),
            (Socks5State::SubNegotiation, Socks5Event::Data) => self.on_sub_negotiation(conn),
            (Socks5State::AwaitingAuth, Socks5Event::AuthVerdict(ok)) => self.on_auth_verdict(conn, ok),
            (Socks5State::Request, Socks5Event::Data) => self.on_request(conn),
            (Socks5State::Connecting, Socks5Event::Connected) => self.on_connect_result(conn, None),
            (Socks5State::Connecting, Socks5Event::ConnectFailed(k)) => self.on_connect_result(
                conn,
                Some(k),
            ),
            _ => {
                proof {
                    lemma_no_step(*conn);
                }
                self.close(Socks5ProxyError::UnexpectedEvent)
            },
        }
    }
}

proof fn lemma_push_contains(s: Seq<u8>, x: u8, y: u8)
    ensures
        s.push(x).contains(y) == (s.contains(y) || x == y),
{
    if s.contains(y) {
        let j = choose|j: int| 0 <= j < s.len() && s[j] == y;
        assert(s.push(x)[j] == y);
    }
    if x == y {
        assert(s.push(x)[s.len() as int] == y);
    }
    if s.push(x).contains(y) {
        let j = choose|j: int| 0 <= j < s.push(x).len() && s.push(x)[j] == y;
        if j < s.len() {
            assert(s[j] == y);
        }
    }

}

/// Auth gating: with users configured, a session that asked for a connection to its target, or
/// splices, had the credentials given on its own connection accepted. `step` sets that mark only
/// on an accepting verdict for the credentials it asked about.
pub proof fn lemma_auth_gating(s: Socks5Session)
    requires
        s.wf(),
        s.has_users(),
        s.state() == Socks5State::Connecting || s.state() == Socks5State::Established,
    ensures
        s.authenticated(),
{
}

/// The reply to a request, with the given code.
pub fn reply(code: u8) -> (r: [u8; 10])
    ensures
        r@ == reply_bytes(code),
{
    let r = [0x05, code, 0x00, 0x01, 0x00, 0x00, 0x00, 0x00, 0x00, 0x00];
    assert(r@ == reply_bytes(code));
    r
}

/// Every reply to a request is ten bytes: version 5, the code, a reserved zero, address type
/// IPv4, and zeros for the bound address and port.
pub proof fn lemma_reply_well_formed(code: u8)
    ensures
        reply_bytes(code).len() == 10,
        reply_bytes(code)[0] == 0x05u8,
        reply_bytes(code)[1] == code,
        reply_bytes(code)[2] == 0x00u8,
        reply_bytes(code)[3] == 0x01u8,
        forall|i: int| 4 <= i < 10 ==> reply_bytes(code)[i] == 0x00u8,
{
}

/// SOCKS5 proxy
pub struct Socks5Proxy {
    /// Authentication manager
    auth_manager: Arc<AuthManager>,
}

impl Socks5Proxy {
    /// The authentication manager that this proxy consults.
    pub closed spec fn auth(&self) -> AuthManager {
        *self.auth_manager
    }

    pub fn new(auth_manager: Arc<AuthManager>) -> (r: Self)
        ensures
            r.auth() == *auth_manager,
    {
        Socks5Proxy { auth_manager }
    }

    /// A session for a new client connection.
    pub fn start_session(&self) -> (r: Socks5Session)
        ensures
            r.wf(),
            r.state() == Socks5State::Greeting,
            r.has_users() == (self.auth().entries().len() > 0),
            !r.authenticated(),
    {
        Socks5Session::new(self.auth_manager.has_users())
    }

    /// The verdict on the credentials of an `Authenticate` action: true only when the user
    /// exists and bcrypt finds that the password matches.
    pub fn check_credentials(&self, username: &str, password: &str) -> (r: bool)
        ensures
            r == (self.auth().hash_of(username@) matches Some(h) && bcrypt_verdict(password@, h)
                == Some(true)),
    {
        self.auth_manager.check(username, password)
    }
}

} // verus!
