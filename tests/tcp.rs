use std::sync::Arc;

use rust_proxy::auth::AuthManager;
use rust_proxy::conn::BufferedConnection;
use rust_proxy::forward::{CopyAction, CopyEvent, Forwarder, Side};
use rust_proxy::tcp::{
    sniff_protocol, AcceptAction, AcceptEvent, Acceptor, Protocol, TcpProxy, TcpProxyError,
};

#[test]
fn first_byte_selects_protocol() {
    let mut conn = BufferedConnection::new(8);
    conn.receive(&[0x05, 0x01, 0x00]);
    assert!(matches!(sniff_protocol(&mut conn), Ok(Protocol::Socks5)));
    assert_eq!(conn.available_bytes(), 3);
    assert_eq!(conn.read_from_buffer(3).unwrap(), vec![0x05, 0x01, 0x00]);

    for first in [b'G', b'C', b'a', b'z', b'Z'] {
        let mut conn = BufferedConnection::new(8);
        conn.receive(&[first, b'x']);
        assert!(matches!(sniff_protocol(&mut conn), Ok(Protocol::Http)));
        assert_eq!(conn.available_bytes(), 2);
    }
}

#[test]
fn unknown_first_byte_and_no_data() {
    let mut conn = BufferedConnection::new(8);
    conn.receive(&[0x16, 0x03]);
    assert!(matches!(
        sniff_protocol(&mut conn),
        Err(TcpProxyError::UnsupportedProtocol(0x16))
    ));
    let mut empty = BufferedConnection::new(8);
    assert!(matches!(
        sniff_protocol(&mut empty),
        Err(TcpProxyError::NoDataReceived)
    ));
}

#[test]
fn acceptor_bounds_live_handlers() {
    let mut acceptor = Acceptor::new(2);
    assert_eq!(acceptor.step(AcceptEvent::Accepted), AcceptAction::Spawn);
    assert_eq!(acceptor.step(AcceptEvent::Accepted), AcceptAction::Spawn);
    assert_eq!(acceptor.step(AcceptEvent::Accepted), AcceptAction::Reject);
    assert_eq!(acceptor.live_handlers(), 2);
    assert_eq!(acceptor.step(AcceptEvent::HandlerDone), AcceptAction::Continue);
    assert_eq!(acceptor.live_handlers(), 1);
    assert_eq!(acceptor.step(AcceptEvent::Accepted), AcceptAction::Spawn);
    assert_eq!(acceptor.live_handlers(), 2);
}

#[test]
fn acceptor_pauses_and_stops() {
    let mut acceptor = Acceptor::new(1);
    assert_eq!(acceptor.step(AcceptEvent::AcceptFailed), AcceptAction::Pause(100));
    assert_eq!(acceptor.step(AcceptEvent::Accepted), AcceptAction::Spawn);
    assert_eq!(acceptor.step(AcceptEvent::Shutdown), AcceptAction::Stop);
    assert_eq!(acceptor.step(AcceptEvent::HandlerDone), AcceptAction::Continue);
    assert_eq!(acceptor.step(AcceptEvent::Accepted), AcceptAction::Reject);
    assert_eq!(acceptor.live_handlers(), 0);
}

#[test]
fn acceptor_with_zero_limit_rejects() {
    let mut acceptor = Acceptor::new(0);
    assert_eq!(acceptor.step(AcceptEvent::Accepted), AcceptAction::Reject);
}

#[test]
fn forwarder_half_closes() {
    let mut f = Forwarder::new();
    assert_eq!(f.step(CopyEvent::Read(Side::A)), CopyAction::WriteTo(Side::B));
    assert_eq!(f.step(CopyEvent::Eof(Side::A)), CopyAction::ShutdownWrite(Side::B));
    assert!(!f.is_finished());
    assert_eq!(f.step(CopyEvent::Read(Side::B)), CopyAction::WriteTo(Side::A));
    assert_eq!(f.step(CopyEvent::Read(Side::A)), CopyAction::Ignore);
    assert_eq!(f.step(CopyEvent::Eof(Side::B)), CopyAction::ShutdownWrite(Side::A));
    assert!(f.is_finished());
    assert!(!f.has_failed());
}

#[test]
fn forwarder_aborts_on_failure() {
    let mut f = Forwarder::new();
    assert_eq!(f.step(CopyEvent::Failed(Side::B)), CopyAction::Abort);
    assert!(f.is_finished());
    assert!(f.has_failed());
}

#[test]
fn tcp_proxy_hands_out_sessions() {
    let users = vec![("u".to_string(), "p".to_string())];
    let proxy = TcpProxy::new(Arc::new(AuthManager::new(&users).ok().unwrap()), 4096, 8, 10);
    assert_eq!(proxy.buffer_size(), 4096);
    assert_eq!(proxy.connect_timeout_secs(), 10);
    let mut acceptor = proxy.acceptor();
    assert_eq!(acceptor.step(AcceptEvent::Accepted), AcceptAction::Spawn);
    assert!(proxy.socks5_proxy().check_credentials("u", "p"));
    assert!(!proxy.http_proxy().check_credentials("u", "q"));
}
