use rust_proxy::conn::{BufferedConnection, LineRead};
use tokio::io::{duplex, AsyncReadExt, AsyncWriteExt, DuplexStream};
use tokio::runtime::Runtime;

async fn flush(conn: &mut BufferedConnection, stream: &mut DuplexStream) {
    let out = conn.take_outgoing();
    stream.write_all(&out).await.unwrap();
}

async fn fill(conn: &mut BufferedConnection, stream: &mut DuplexStream) -> usize {
    let mut slab = vec![0u8; conn.buffer_size()];
    let n = stream.read(&mut slab).await.unwrap();
    conn.receive(&slab[..n]);
    n
}

#[test]
fn test_buffered_connection() {
    let rt = Runtime::new().unwrap();

    rt.block_on(async {
        // An in-memory pipe stands in for a loopback TCP connection.
        let (mut client_stream, mut server_stream) = duplex(4096);
        let mut client_conn = BufferedConnection::new(4096);
        let mut server_conn = BufferedConnection::new(4096);

        client_conn.write_to_buffer(b"Hello, server!");
        flush(&mut client_conn, &mut client_stream).await;

        while server_conn.available_bytes() < 14 {
            fill(&mut server_conn, &mut server_stream).await;
        }
        let data = server_conn.read_from_buffer(14).unwrap();
        assert_eq!(data, b"Hello, server!");

        server_conn.write_to_buffer(b"Hello, client!");
        flush(&mut server_conn, &mut server_stream).await;

        while client_conn.available_bytes() < 14 {
            fill(&mut client_conn, &mut client_stream).await;
        }
        let data = client_conn.read_from_buffer(14).unwrap();
        assert_eq!(data, b"Hello, client!");
    });
}

#[test]
fn read_from_buffer_waits_for_enough_bytes() {
    let mut conn = BufferedConnection::new(16);
    assert!(!conn.has_data());
    assert!(conn.read_from_buffer(1).is_none());
    conn.receive(b"ab");
    assert!(conn.read_from_buffer(3).is_none());
    assert_eq!(conn.available_bytes(), 2);
    conn.receive(b"c");
    assert_eq!(conn.read_from_buffer(3).unwrap(), b"abc".to_vec());
    assert!(!conn.has_data());
    assert_eq!(conn.read_from_buffer(0).unwrap(), Vec::<u8>::new());
}

#[test]
fn unread_restores_bytes_in_order() {
    let mut conn = BufferedConnection::new(16);
    conn.receive(b"hello world");
    let head = conn.read_from_buffer(5).unwrap();
    assert_eq!(head, b"hello".to_vec());
    conn.unread(&head);
    assert_eq!(conn.available_bytes(), 11);
    assert_eq!(conn.read_from_buffer(11).unwrap(), b"hello world".to_vec());
}

#[test]
fn consumed_bytes_reproduce_the_stream() {
    let stream = b"\x05\x01\x00rest of the stream";
    let mut conn = BufferedConnection::new(4);
    let mut out = Vec::new();
    conn.receive(&stream[..3]);
    let first = conn.read_from_buffer(1).unwrap();
    conn.unread(&first);
    out.extend(conn.read_from_buffer(3).unwrap());
    conn.receive(&stream[3..10]);
    out.extend(conn.drain_buffered(4));
    conn.receive(&stream[10..]);
    out.extend(conn.drain_buffered(100));
    assert_eq!(out, stream.to_vec());
}

#[test]
fn drain_buffered_takes_at_most_max() {
    let mut conn = BufferedConnection::new(8);
    conn.receive(b"abcdef");
    assert_eq!(conn.drain_buffered(4), b"abcd".to_vec());
    assert_eq!(conn.drain_buffered(4), b"ef".to_vec());
    assert_eq!(conn.drain_buffered(4), Vec::<u8>::new());
}

#[test]
fn read_line_splits_at_crlf() {
    let mut conn = BufferedConnection::new(8);
    conn.receive(b"GET / HTTP/1.1\r");
    assert!(matches!(conn.read_line(), LineRead::Incomplete));
    conn.receive(b"\nHost: x\r\n\r\n");
    match conn.read_line() {
        LineRead::Line(s) => assert_eq!(s, "GET / HTTP/1.1"),
        _ => panic!("expected a line"),
    }
    match conn.read_line() {
        LineRead::Line(s) => assert_eq!(s, "Host: x"),
        _ => panic!("expected a line"),
    }
    match conn.read_line() {
        LineRead::Line(s) => assert_eq!(s, ""),
        _ => panic!("expected a line"),
    }
    assert!(!conn.has_data());
}

#[test]
fn read_line_rejects_invalid_utf8() {
    let mut conn = BufferedConnection::new(8);
    conn.receive(b"\xff\xfe\r\nnext\r\n");
    assert!(matches!(conn.read_line(), LineRead::InvalidUtf8));
    assert_eq!(conn.take_line().unwrap(), b"next".to_vec());
}

#[test]
fn outgoing_bytes_are_taken_once() {
    let mut conn = BufferedConnection::new(8);
    conn.write_to_buffer(b"ab");
    conn.write_to_buffer(b"cd");
    assert_eq!(conn.take_outgoing(), b"abcd".to_vec());
    assert_eq!(conn.take_outgoing(), Vec::<u8>::new());
    assert_eq!(conn.buffer_size(), 8);
}
