use std::sync::Arc;

use rust_proxy::auth::AuthManager;
use rust_proxy::conn::BufferedConnection;
use rust_proxy::dial::ConnectErrorKind;
use rust_proxy::socks5::{
    reply, Socks5Action, Socks5Event, Socks5Proxy, Socks5ProxyError, Socks5Session, TargetAddr,
};

fn proxy(pairs: &[(&str, &str)]) -> Socks5Proxy {
    let users: Vec<(String, String)> = pairs
        .iter()
        .map(|(u, p)| (u.to_string(), p.to_string()))
        .collect();
    Socks5Proxy::new(Arc::new(AuthManager::new(&users).ok().unwrap()))
}

/// Hands `input` to the connection and steps with `Data` until the session wants more or acts.
fn feed(
    session: &mut Socks5Session,
    conn: &mut BufferedConnection,
    input: &[u8],
    sent: &mut Vec<u8>,
) -> Socks5Action {
    conn.receive(input);
    loop {
        let action = session.step(conn, Socks5Event::Data);
        sent.extend(conn.take_outgoing());
        match action {
            Socks5Action::Proceed => continue,
            other => return other,
        }
    }
}

fn event(
    session: &mut Socks5Session,
    conn: &mut BufferedConnection,
    e: Socks5Event,
    sent: &mut Vec<u8>,
) -> Socks5Action {
    let mut action = session.step(conn, e);
    sent.extend(conn.take_outgoing());
    while let Socks5Action::Proceed = action {
        action = session.step(conn, Socks5Event::Data);
        sent.extend(conn.take_outgoing());
    }
    action
}

#[test]
fn socks5_no_auth_connect_ipv4() {
    let proxy = proxy(&[]);
    let mut session = proxy.start_session();
    let mut conn = BufferedConnection::new(4096);
    let mut sent = Vec::new();

    let a = feed(&mut session, &mut conn, &[0x05, 0x01, 0x00], &mut sent);
    assert!(matches!(a, Socks5Action::NeedMore));
    assert_eq!(sent, vec![0x05, 0x00]);

    sent.clear();
    let a = feed(
        &mut session,
        &mut conn,
        &[0x05, 0x01, 0x00, 0x01, 0x7F, 0x00, 0x00, 0x01, 0x1F, 0x90],
        &mut sent,
    );
    match a {
        Socks5Action::Connect(TargetAddr::Ipv4(ip, port)) => {
            assert_eq!(ip, vec![127, 0, 0, 1]);
            assert_eq!(port, 8080);
        }
        _ => panic!("expected a connect to 127.0.0.1:8080"),
    }
    assert!(sent.is_empty());

    let a = event(&mut session, &mut conn, Socks5Event::Connected, &mut sent);
    assert!(matches!(a, Socks5Action::Splice));
    assert_eq!(sent.len(), 10);
    assert_eq!(&sent[..4], &[0x05, 0x00, 0x00, 0x01]);

    conn.receive(b"hello");
    assert_eq!(conn.drain_buffered(4096), b"hello".to_vec());
}

#[test]
fn socks5_user_pass_success() {
    let proxy = proxy(&[("u", "p")]);
    let mut session = proxy.start_session();
    let mut conn = BufferedConnection::new(4096);
    let mut sent = Vec::new();

    let a = feed(&mut session, &mut conn, &[0x05, 0x01, 0x02], &mut sent);
    assert!(matches!(a, Socks5Action::NeedMore));
    assert_eq!(sent, vec![0x05, 0x02]);

    sent.clear();
    let a = feed(&mut session, &mut conn, &[0x01, 0x01, b'u', 0x01, b'p'], &mut sent);
    let ok = match a {
        Socks5Action::Authenticate(u, p) => {
            assert_eq!(u, "u");
            assert_eq!(p, "p");
            proxy.check_credentials(&u, &p)
        }
        _ => panic!("expected credentials to check"),
    };
    assert!(ok);
    let a = event(&mut session, &mut conn, Socks5Event::AuthVerdict(ok), &mut sent);
    assert!(matches!(a, Socks5Action::NeedMore));
    assert_eq!(sent, vec![0x01, 0x00]);

    sent.clear();
    let a = feed(
        &mut session,
        &mut conn,
        &[0x05, 0x01, 0x00, 0x01, 0x7F, 0x00, 0x00, 0x01, 0x1F, 0x90],
        &mut sent,
    );
    assert!(matches!(a, Socks5Action::Connect(TargetAddr::Ipv4(_, 8080))));
    let a = event(&mut session, &mut conn, Socks5Event::Connected, &mut sent);
    assert!(matches!(a, Socks5Action::Splice));
    assert_eq!(sent, vec![0x05, 0x00, 0x00, 0x01, 0, 0, 0, 0, 0, 0]);
}

#[test]
fn socks5_user_pass_failure() {
    let proxy = proxy(&[("u", "p")]);
    let mut session = proxy.start_session();
    let mut conn = BufferedConnection::new(4096);
    let mut sent = Vec::new();

    feed(&mut session, &mut conn, &[0x05, 0x01, 0x02], &mut sent);
    sent.clear();
    let a = feed(&mut session, &mut conn, &[0x01, 0x01, b'u', 0x01, b'x'], &mut sent);
    let ok = match a {
        Socks5Action::Authenticate(u, p) => proxy.check_credentials(&u, &p),
        _ => panic!("expected credentials to check"),
    };
    assert!(!ok);
    let a = event(&mut session, &mut conn, Socks5Event::AuthVerdict(ok), &mut sent);
    assert!(matches!(
        a,
        Socks5Action::Close(Socks5ProxyError::AuthenticationFailed)
    ));
    assert_eq!(sent, vec![0x01, 0x01]);
    assert!(session.is_closed());
}

#[test]
fn socks5_unsupported_command() {
    let proxy = proxy(&[]);
    let mut session = proxy.start_session();
    let mut conn = BufferedConnection::new(4096);
    let mut sent = Vec::new();

    feed(&mut session, &mut conn, &[0x05, 0x01, 0x00], &mut sent);
    sent.clear();
    let a = feed(
        &mut session,
        &mut conn,
        &[0x05, 0x02, 0x00, 0x01, 0x7F, 0x00, 0x00, 0x01, 0x1F, 0x90],
        &mut sent,
    );
    assert!(matches!(
        a,
        Socks5Action::Close(Socks5ProxyError::UnsupportedCommand)
    ));
    assert_eq!(sent.len(), 10);
    assert_eq!(sent[1], 0x07);
    assert!(session.is_closed());
}

#[test]
fn socks5_users_require_user_pass_method() {
    let proxy = proxy(&[("u", "p")]);
    let mut session = proxy.start_session();
    let mut conn = BufferedConnection::new(4096);
    let mut sent = Vec::new();
    let a = feed(&mut session, &mut conn, &[0x05, 0x01, 0x00], &mut sent);
    assert!(matches!(
        a,
        Socks5Action::Close(Socks5ProxyError::NoSupportedAuthMethod)
    ));
    assert_eq!(sent, vec![0x05, 0xFF]);
}

#[test]
fn socks5_without_users_prefers_no_auth() {
    let mut session = Socks5Session::new(false);
    let mut conn = BufferedConnection::new(64);
    let mut sent = Vec::new();
    feed(&mut session, &mut conn, &[0x05, 0x02, 0x02, 0x00], &mut sent);
    assert_eq!(sent, vec![0x05, 0x00]);

    let mut session = Socks5Session::new(false);
    let mut conn = BufferedConnection::new(64);
    let mut sent = Vec::new();
    let a = feed(&mut session, &mut conn, &[0x05, 0x01, 0x02], &mut sent);
    assert!(matches!(a, Socks5Action::NeedMore));
    assert_eq!(sent, vec![0x05, 0x02]);

    let mut session = Socks5Session::new(false);
    let mut conn = BufferedConnection::new(64);
    let mut sent = Vec::new();
    let a = feed(&mut session, &mut conn, &[0x05, 0x01, 0x01], &mut sent);
    assert!(matches!(
        a,
        Socks5Action::Close(Socks5ProxyError::NoSupportedAuthMethod)
    ));
    assert_eq!(sent, vec![0x05, 0xFF]);
}

#[test]
fn socks5_rejects_wrong_version() {
    let mut session = Socks5Session::new(false);
    let mut conn = BufferedConnection::new(64);
    let mut sent = Vec::new();
    let a = feed(&mut session, &mut conn, &[0x04, 0x01, 0x00], &mut sent);
    assert!(matches!(a, Socks5Action::Close(Socks5ProxyError::InvalidVersion)));
    assert!(sent.is_empty());
}

#[test]
fn socks5_greeting_in_pieces() {
    let mut session = Socks5Session::new(false);
    let mut conn = BufferedConnection::new(64);
    let mut sent = Vec::new();
    assert!(matches!(
        feed(&mut session, &mut conn, &[0x05], &mut sent),
        Socks5Action::NeedMore
    ));
    assert!(matches!(
        feed(&mut session, &mut conn, &[0x02, 0x01], &mut sent),
        Socks5Action::NeedMore
    ));
    assert!(sent.is_empty());
    feed(&mut session, &mut conn, &[0x00], &mut sent);
    assert_eq!(sent, vec![0x05, 0x00]);
}

#[test]
fn socks5_domain_and_ipv6_targets() {
    let mut session = Socks5Session::new(false);
    let mut conn = BufferedConnection::new(64);
    let mut sent = Vec::new();
    feed(&mut session, &mut conn, &[0x05, 0x01, 0x00], &mut sent);
    let mut req = vec![0x05, 0x01, 0x00, 0x03, 11];
    req.extend_from_slice(b"example.com");
    req.extend_from_slice(&[0x01, 0xBB]);
    match feed(&mut session, &mut conn, &req, &mut sent) {
        Socks5Action::Connect(TargetAddr::Domain(d, port)) => {
            assert_eq!(d, "example.com");
            assert_eq!(port, 443);
        }
        _ => panic!("expected a domain target"),
    }

    let mut session = Socks5Session::new(false);
    let mut conn = BufferedConnection::new(64);
    feed(&mut session, &mut conn, &[0x05, 0x01, 0x00], &mut sent);
    let mut req = vec![0x05, 0x01, 0x00, 0x04];
    req.extend_from_slice(&[0; 15]);
    req.push(1);
    req.extend_from_slice(&[0x00, 0x50]);
    match feed(&mut session, &mut conn, &req, &mut sent) {
        Socks5Action::Connect(TargetAddr::Ipv6(ip, port)) => {
            assert_eq!(ip.len(), 16);
            assert_eq!(ip[15], 1);
            assert_eq!(port, 80);
        }
        _ => panic!("expected an IPv6 target"),
    }
}

#[test]
fn socks5_invalid_address_type() {
    let mut session = Socks5Session::new(false);
    let mut conn = BufferedConnection::new(64);
    let mut sent = Vec::new();
    feed(&mut session, &mut conn, &[0x05, 0x01, 0x00], &mut sent);
    sent.clear();
    let a = feed(&mut session, &mut conn, &[0x05, 0x01, 0x00, 0x02, 0, 0], &mut sent);
    assert!(matches!(
        a,
        Socks5Action::Close(Socks5ProxyError::InvalidAddressType)
    ));
    assert_eq!(sent, reply(0x08).to_vec());
}

#[test]
fn socks5_connect_failures_map_to_reply_codes() {
    let cases = [
        (ConnectErrorKind::Refused, 0x05),
        (ConnectErrorKind::ResolutionFailed, 0x04),
        (ConnectErrorKind::NotFound, 0x04),
        (ConnectErrorKind::Timeout, 0x01),
        (ConnectErrorKind::Other, 0x01),
    ];
    for (kind, code) in cases {
        let mut session = Socks5Session::new(false);
        let mut conn = BufferedConnection::new(64);
        let mut sent = Vec::new();
        feed(&mut session, &mut conn, &[0x05, 0x01, 0x00], &mut sent);
        feed(
            &mut session,
            &mut conn,
            &[0x05, 0x01, 0x00, 0x01, 10, 0, 0, 1, 0, 80],
            &mut sent,
        );
        sent.clear();
        let a = event(&mut session, &mut conn, Socks5Event::ConnectFailed(kind), &mut sent);
        assert!(matches!(
            a,
            Socks5Action::Close(Socks5ProxyError::ConnectTargetFailed(k)) if k == kind
        ));
        assert_eq!(sent, reply(code).to_vec());
        assert_eq!(kind.reply_code(), code);
    }
}

#[test]
fn socks5_replies_are_well_formed() {
    for code in [0x00u8, 0x01, 0x04, 0x05, 0x07, 0x08] {
        let r = reply(code);
        assert_eq!(r.len(), 10);
        assert_eq!(r[0], 0x05);
        assert_eq!(r[1], code);
        assert_eq!(r[2], 0x00);
        assert_eq!(r[3], 0x01);
        assert_eq!(&r[4..], &[0, 0, 0, 0, 0, 0]);
    }
}

#[test]
fn socks5_unexpected_event_closes() {
    let mut session = Socks5Session::new(false);
    let mut conn = BufferedConnection::new(64);
    let mut sent = Vec::new();
    let a = event(&mut session, &mut conn, Socks5Event::Connected, &mut sent);
    assert!(matches!(a, Socks5Action::Close(Socks5ProxyError::UnexpectedEvent)));
}

#[test]
fn socks5_bytes_after_request_stay_buffered() {
    let mut session = Socks5Session::new(false);
    let mut conn = BufferedConnection::new(64);
    let mut sent = Vec::new();
    let mut input = vec![0x05, 0x01, 0x00, 0x05, 0x01, 0x00, 0x01, 1, 2, 3, 4, 0, 80];
    input.extend_from_slice(b"early");
    let a = feed(&mut session, &mut conn, &input, &mut sent);
    assert!(matches!(a, Socks5Action::Connect(_)));
    assert_eq!(conn.drain_buffered(64), b"early".to_vec());
}

#[test]
fn socks5_bad_sub_negotiation_version() {
    let mut session = Socks5Session::new(true);
    let mut conn = BufferedConnection::new(64);
    let mut sent = Vec::new();
    feed(&mut session, &mut conn, &[0x05, 0x01, 0x02], &mut sent);
    let a = feed(&mut session, &mut conn, &[0x05, 0x01, b'u', 0x01, b'p'], &mut sent);
    assert!(matches!(a, Socks5Action::Close(Socks5ProxyError::InvalidAuthMethod)));
}

#[test]
fn socks5_credentials_must_be_utf8() {
    let mut session = Socks5Session::new(true);
    let mut conn = BufferedConnection::new(64);
    let mut sent = Vec::new();
    feed(&mut session, &mut conn, &[0x05, 0x01, 0x02], &mut sent);
    let a = feed(&mut session, &mut conn, &[0x01, 0x01, 0xFF, 0x01, b'p'], &mut sent);
    assert!(matches!(a, Socks5Action::Close(Socks5ProxyError::InvalidUtf8)));
}

#[test]
fn socks5_domain_must_be_utf8() {
    let mut session = Socks5Session::new(false);
    let mut conn = BufferedConnection::new(64);
    let mut sent = Vec::new();
    feed(&mut session, &mut conn, &[0x05, 0x01, 0x00], &mut sent);
    sent.clear();
    let a = feed(
        &mut session,
        &mut conn,
        &[0x05, 0x01, 0x00, 0x03, 0x02, 0xC3, 0x28, 0x00, 0x50],
        &mut sent,
    );
    assert!(matches!(a, Socks5Action::Close(Socks5ProxyError::InvalidUtf8)));
    assert!(sent.is_empty());
}

#[test]
fn socks5_sub_negotiation_in_pieces() {
    let mut session = Socks5Session::new(true);
    let mut conn = BufferedConnection::new(64);
    let mut sent = Vec::new();
    feed(&mut session, &mut conn, &[0x05, 0x01, 0x02], &mut sent);
    assert!(matches!(
        feed(&mut session, &mut conn, &[0x01, 0x02, b'a'], &mut sent),
        Socks5Action::NeedMore
    ));
    assert!(matches!(
        feed(&mut session, &mut conn, &[b'b', 0x02, b'c'], &mut sent),
        Socks5Action::NeedMore
    ));
    match feed(&mut session, &mut conn, &[b'd'], &mut sent) {
        Socks5Action::Authenticate(u, p) => {
            assert_eq!(u, "ab");
            assert_eq!(p, "cd");
        }
        _ => panic!("expected credentials"),
    }
}
