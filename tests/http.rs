use std::sync::Arc;

use rust_proxy::auth::AuthManager;
use rust_proxy::conn::BufferedConnection;
use rust_proxy::dial::ConnectErrorKind;
use rust_proxy::http::{
    build_upstream_request, credentials_from_decoded, origin_form_bytes, HttpAction, HttpEvent,
    HttpProxy, HttpProxyError, HttpSession, HttpTarget,
};

fn proxy(pairs: &[(&str, &str)]) -> HttpProxy {
    let users: Vec<(String, String)> = pairs
        .iter()
        .map(|(u, p)| (u.to_string(), p.to_string()))
        .collect();
    HttpProxy::new(Arc::new(AuthManager::new(&users).ok().unwrap()))
}

fn run(
    session: &mut HttpSession,
    conn: &mut BufferedConnection,
    first: HttpEvent,
    sent: &mut Vec<u8>,
) -> HttpAction {
    let mut action = session.step(conn, first);
    sent.extend(conn.take_outgoing());
    while let HttpAction::Proceed = action {
        action = session.step(conn, HttpEvent::Data);
        sent.extend(conn.take_outgoing());
    }
    action
}

fn feed(
    session: &mut HttpSession,
    conn: &mut BufferedConnection,
    input: &[u8],
    sent: &mut Vec<u8>,
) -> HttpAction {
    conn.receive(input);
    run(session, conn, HttpEvent::Data, sent)
}

const AUTH_REQUIRED: &[u8] = b"HTTP/1.1 407 Proxy Authentication Required\r\nProxy-Authenticate: Basic realm=\"Proxy\"\r\nContent-Length: 0\r\n\r\n";

#[test]
fn http_connect_tunnel() {
    let proxy = proxy(&[]);
    let mut session = proxy.start_session();
    let mut conn = BufferedConnection::new(4096);
    let mut sent = Vec::new();
    let a = feed(
        &mut session,
        &mut conn,
        b"CONNECT example.com:443 HTTP/1.1\r\n\r\n",
        &mut sent,
    );
    match a {
        HttpAction::Connect(HttpTarget::Authority(a)) => assert_eq!(a, "example.com:443"),
        _ => panic!("expected a tunnel connect"),
    }
    assert!(sent.is_empty());
    let a = run(&mut session, &mut conn, HttpEvent::Connected, &mut sent);
    assert!(matches!(a, HttpAction::Splice));
    assert_eq!(sent, b"HTTP/1.1 200 Connection Established\r\n\r\n".to_vec());
    conn.receive(b"tls bytes");
    assert_eq!(conn.drain_buffered(4096), b"tls bytes".to_vec());
}

#[test]
fn http_absolute_uri_get() {
    let proxy = proxy(&[("u", "p")]);
    let mut session = proxy.start_session();
    let mut conn = BufferedConnection::new(4096);
    let mut sent = Vec::new();
    let a = feed(
        &mut session,
        &mut conn,
        b"GET http://example.com/path?q=1 HTTP/1.1\r\nHost: example.com\r\nProxy-Authorization: Basic dTpw\r\nUser-Agent: t\r\n\r\n",
        &mut sent,
    );
    let ok = match a {
        HttpAction::Authenticate(u, p) => {
            assert_eq!(u, "u");
            assert_eq!(p, "p");
            proxy.check_credentials(&u, &p)
        }
        _ => panic!("expected credentials to check"),
    };
    assert!(ok);
    let a = run(&mut session, &mut conn, HttpEvent::AuthVerdict(ok), &mut sent);
    match a {
        HttpAction::Connect(HttpTarget::HostPort(host, port)) => {
            assert_eq!(host, "example.com");
            assert_eq!(port, 80);
        }
        _ => panic!("expected a connect to the URL's host"),
    }
    let a = run(&mut session, &mut conn, HttpEvent::Connected, &mut sent);
    match a {
        HttpAction::Forward(bytes) => assert_eq!(
            bytes,
            b"GET /path?q=1 HTTP/1.1\r\nHost: example.com\r\nUser-Agent: t\r\nConnection: close\r\n\r\n"
                .to_vec()
        ),
        _ => panic!("expected the upstream request"),
    }
    assert!(sent.is_empty());
}

#[test]
fn http_forward_keeps_header_case_order_and_body() {
    let mut session = HttpSession::new(false);
    let mut conn = BufferedConnection::new(64);
    let mut sent = Vec::new();
    let a = feed(
        &mut session,
        &mut conn,
        b"POST http://h.example:8080/a HTTP/1.1\r\nX-First: 1\r\nProxy-Connection: keep-alive\r\nConnection: keep-alive\r\nContent-Length: 4\r\nx-last:  two words \r\n\r\nbody",
        &mut sent,
    );
    assert!(matches!(a, HttpAction::Connect(HttpTarget::HostPort(_, 8080))));
    let a = run(&mut session, &mut conn, HttpEvent::Connected, &mut sent);
    match a {
        HttpAction::Forward(bytes) => assert_eq!(
            bytes,
            b"POST /a HTTP/1.1\r\nX-First: 1\r\nContent-Length: 4\r\nx-last: two words\r\nConnection: close\r\n\r\nbody"
                .to_vec()
        ),
        _ => panic!("expected the upstream request"),
    }
}

#[test]
fn http_body_waits_for_content_length() {
    let mut session = HttpSession::new(false);
    let mut conn = BufferedConnection::new(64);
    let mut sent = Vec::new();
    let a = feed(
        &mut session,
        &mut conn,
        b"PUT http://h/ HTTP/1.1\r\nContent-Length: 5\r\n\r\nab",
        &mut sent,
    );
    assert!(matches!(a, HttpAction::NeedMore));
    let a = feed(&mut session, &mut conn, b"cdeEXTRA", &mut sent);
    assert!(matches!(a, HttpAction::Connect(_)));
    assert_eq!(session.current_request().body_bytes(), b"abcde");
    assert_eq!(conn.drain_buffered(64), b"EXTRA".to_vec());
}

#[test]
fn http_request_in_pieces() {
    let mut session = HttpSession::new(false);
    let mut conn = BufferedConnection::new(64);
    let mut sent = Vec::new();
    assert!(matches!(
        feed(&mut session, &mut conn, b"CONNECT h:1 HT", &mut sent),
        HttpAction::NeedMore
    ));
    assert!(matches!(
        feed(&mut session, &mut conn, b"TP/1.1\r\nHost: h\r", &mut sent),
        HttpAction::NeedMore
    ));
    assert!(matches!(
        feed(&mut session, &mut conn, b"\n\r\n", &mut sent),
        HttpAction::Connect(HttpTarget::Authority(_))
    ));
    let req = session.current_request();
    assert_eq!(req.header_count(), 1);
    assert_eq!(req.header(0).name_bytes(), b"Host");
    assert_eq!(req.header(0).lower_bytes(), b"host");
    assert_eq!(req.header(0).value_bytes(), b"h");
}

#[test]
fn http_missing_credentials_get_407() {
    let proxy = proxy(&[("u", "p")]);
    let mut session = proxy.start_session();
    let mut conn = BufferedConnection::new(64);
    let mut sent = Vec::new();
    let a = feed(
        &mut session,
        &mut conn,
        b"CONNECT h:443 HTTP/1.1\r\n\r\n",
        &mut sent,
    );
    assert!(matches!(a, HttpAction::Close(HttpProxyError::ProxyAuthRequired)));
    assert_eq!(sent, AUTH_REQUIRED.to_vec());
}

#[test]
fn http_wrong_credentials_get_407() {
    let proxy = proxy(&[("u", "p")]);
    let mut session = proxy.start_session();
    let mut conn = BufferedConnection::new(64);
    let mut sent = Vec::new();
    let a = feed(
        &mut session,
        &mut conn,
        b"CONNECT h:443 HTTP/1.1\r\nproxy-authorization: Basic dTp4\r\n\r\n",
        &mut sent,
    );
    let ok = match a {
        HttpAction::Authenticate(u, p) => proxy.check_credentials(&u, &p),
        _ => panic!("expected credentials to check"),
    };
    assert!(!ok);
    let a = run(&mut session, &mut conn, HttpEvent::AuthVerdict(ok), &mut sent);
    assert!(matches!(a, HttpAction::Close(HttpProxyError::ProxyAuthRequired)));
    assert_eq!(sent, AUTH_REQUIRED.to_vec());
}

#[test]
fn http_malformed_credentials_get_407() {
    for header in [
        &b"Proxy-Authorization: Bearer dTpw\r\n"[..],
        &b"Proxy-Authorization: Basic !!!\r\n"[..],
        &b"Proxy-Authorization: Basic dXA=\r\n"[..],
    ] {
        let mut session = HttpSession::new(true);
        let mut conn = BufferedConnection::new(64);
        let mut sent = Vec::new();
        let mut req = b"GET http://h/ HTTP/1.1\r\n".to_vec();
        req.extend_from_slice(header);
        req.extend_from_slice(b"\r\n");
        let a = feed(&mut session, &mut conn, &req, &mut sent);
        assert!(matches!(a, HttpAction::Close(HttpProxyError::ProxyAuthRequired)));
        assert_eq!(sent, AUTH_REQUIRED.to_vec());
    }
}

#[test]
fn http_errors() {
    let cases: [(&[u8], fn(&HttpProxyError) -> bool); 5] = [
        (b"GET /only-two\r\n\r\n", |e| matches!(e, HttpProxyError::InvalidRequest)),
        (b"TRACE http://h/ HTTP/1.1\r\n\r\n", |e| matches!(e, HttpProxyError::UnsupportedMethod)),
        (b"GET /relative HTTP/1.1\r\n\r\n", |e| matches!(e, HttpProxyError::InvalidUrl)),
        (b"GET http://h/ HTTP/1.1\r\nContent-Length: x\r\n\r\n", |e| {
            matches!(e, HttpProxyError::InvalidRequest)
        }),
        (b"GET http://h/ HTTP/1.1\r\nA: \xff\r\n\r\n", |e| matches!(e, HttpProxyError::InvalidUtf8)),
    ];
    for (input, expected) in cases {
        let mut session = HttpSession::new(false);
        let mut conn = BufferedConnection::new(64);
        let mut sent = Vec::new();
        match feed(&mut session, &mut conn, input, &mut sent) {
            HttpAction::Close(e) => assert!(expected(&e)),
            _ => panic!("expected an error"),
        }
        assert!(session.is_closed());
        assert!(sent.is_empty());
    }
}

#[test]
fn http_connect_failure_closes() {
    let mut session = HttpSession::new(false);
    let mut conn = BufferedConnection::new(64);
    let mut sent = Vec::new();
    feed(&mut session, &mut conn, b"CONNECT h:1 HTTP/1.1\r\n\r\n", &mut sent);
    let a = run(
        &mut session,
        &mut conn,
        HttpEvent::ConnectFailed(ConnectErrorKind::Refused),
        &mut sent,
    );
    assert!(matches!(
        a,
        HttpAction::Close(HttpProxyError::ConnectFailed(ConnectErrorKind::Refused))
    ));
    assert!(sent.is_empty());
}

#[test]
fn https_default_port_and_root_path() {
    let mut session = HttpSession::new(false);
    let mut conn = BufferedConnection::new(64);
    let mut sent = Vec::new();
    let a = feed(
        &mut session,
        &mut conn,
        b"HEAD https://secure.example HTTP/1.0\r\n\r\n",
        &mut sent,
    );
    assert!(matches!(a, HttpAction::Connect(HttpTarget::HostPort(_, 443))));
    match run(&mut session, &mut conn, HttpEvent::Connected, &mut sent) {
        HttpAction::Forward(bytes) => assert_eq!(
            bytes,
            b"HEAD / HTTP/1.0\r\nConnection: close\r\n\r\n".to_vec()
        ),
        _ => panic!("expected the upstream request"),
    }
}

#[test]
fn credentials_split_at_first_colon() {
    let (u, p) = credentials_from_decoded(b"user:pa:ss").unwrap();
    assert_eq!(u, "user");
    assert_eq!(p, "pa:ss");
    assert!(credentials_from_decoded(b"nocolon").is_none());
    assert!(credentials_from_decoded(b"\xff:p").is_none());
}

#[test]
fn origin_form_joins_path_and_query() {
    assert_eq!(origin_form_bytes("/path", Some("q=1")), b"/path?q=1".to_vec());
    assert_eq!(origin_form_bytes("/", None), b"/".to_vec());
}

#[test]
fn upstream_request_of_a_parsed_request() {
    let mut session = HttpSession::new(false);
    let mut conn = BufferedConnection::new(64);
    let mut sent = Vec::new();
    feed(
        &mut session,
        &mut conn,
        b"DELETE http://h/x HTTP/1.1\r\nConnection: close\r\nKeep: yes\r\n\r\n",
        &mut sent,
    );
    let bytes = build_upstream_request(session.current_request(), b"/y");
    assert_eq!(
        bytes,
        b"DELETE /y HTTP/1.1\r\nKeep: yes\r\nConnection: close\r\n\r\n".to_vec()
    );
}
