use roomserver::connection::Connection;
use roomserver::enums::ConnectionState;
use roomserver::rooms::Rooms;
use roomserver::server::{finish_create_room, handle_http, HttpAction};
use roomserver::upgrade::{generate_sec_websocket_accept, handle_upgrade, accept_response};

fn feed(c: &mut Connection, bytes: &[u8]) -> HttpAction {
    c.buffer.extend_from_slice(bytes);
    handle_http(c)
}

fn sent(a: HttpAction) -> String {
    match a {
        HttpAction::Send(b) => String::from_utf8(b).unwrap(),
        other => panic!("unexpected {:?}", other),
    }
}

#[test]
fn accept_key_of_rfc_example() {
    assert_eq!(generate_sec_websocket_accept("dGhlIHNhbXBsZSBub25jZQ=="), "s3pPLMBiTxaQ9kYGzzhZRbK+xOo=");
}

#[test]
fn accept_response_encodes_digest() {
    let r = accept_response(&[0xff, 0xfe, 0x3f, 0x66]);
    assert_eq!(r.status, 101);
    assert_eq!(r.headers.get("sec-websocket-accept").unwrap(), "//4/Zg==");
    assert_eq!(r.headers.get("upgrade").unwrap(), "websocket");
    assert_eq!(r.headers.get("connection").unwrap(), "Upgrade");
    assert_eq!(r.headers.len(), 3);
}

#[test]
fn upgrade_needs_version_and_key() {
    let mut c = Connection::new(1);
    assert_eq!(handle_upgrade(&c).status, 406);
    c.http_headers.insert("sec-websocket-version".to_string(), "12".to_string());
    c.http_headers.insert("sec-websocket-key".to_string(), "abc".to_string());
    assert_eq!(handle_upgrade(&c).status, 406);
    c.http_headers.insert("sec-websocket-version".to_string(), "13".to_string());
    let r = handle_upgrade(&c);
    assert_eq!(r.status, 101);
    assert_eq!(r.headers.get("sec-websocket-accept").unwrap(), &generate_sec_websocket_accept("abc"));
    let mut c = Connection::new(1);
    c.http_headers.insert("sec-websocket-version".to_string(), "13".to_string());
    assert_eq!(handle_upgrade(&c).status, 406);
}

#[test]
fn websocket_handshake() {
    let mut c = Connection::new(1);
    let a = feed(&mut c, b"GET /?room=x HTTP/1.1\r\nHost: h\r\nUpgrade: websocket\r\nConnection: Upgrade\r\nSec-WebSocket-Key: dGhlIHNhbXBsZSBub25jZQ==\r\nSec-WebSocket-Version: 13\r\n\r\n");
    match a {
        HttpAction::Upgrade(b) => assert_eq!(
            String::from_utf8(b).unwrap(),
            "HTTP/1.1 101 Switching Protocols\r\nupgrade: websocket\r\nconnection: Upgrade\r\nsec-websocket-accept: s3pPLMBiTxaQ9kYGzzhZRbK+xOo=\r\ncontent-length: 0\r\n\r\n"
        ),
        other => panic!("unexpected {:?}", other),
    }
    assert!(c.websocket);
    assert_eq!(c.http_state, ConnectionState::ReadProtocol);
    assert!(c.buffer.is_empty());
}

#[test]
fn refused_handshake_is_sent_plainly() {
    let mut c = Connection::new(1);
    let a = feed(&mut c, b"GET / HTTP/1.1\r\nUpgrade: websocket\r\n\r\n");
    assert_eq!(sent(a), "HTTP/1.1 406 Not Acceptable\r\ncontent-length: 0\r\n\r\n");
}

#[test]
fn request_arriving_in_pieces() {
    let mut c = Connection::new(2);
    assert!(matches!(feed(&mut c, b"GET /nowhere HT"), HttpAction::Wait));
    assert!(matches!(feed(&mut c, b"TP/1.1\r\nHost: x\r\n"), HttpAction::Wait));
    assert_eq!(c.http_state, ConnectionState::ReadHeaders);
    assert_eq!(sent(feed(&mut c, b"\r\n")), "HTTP/1.1 404 Not Found\r\ncontent-length: 0\r\n\r\n");
    assert_eq!(c.http_state, ConnectionState::ReadProtocol);
}

#[test]
fn plain_get_root_is_not_found() {
    let mut c = Connection::new(2);
    assert_eq!(sent(feed(&mut c, b"GET / HTTP/1.1\r\n\r\n")), "HTTP/1.1 404 Not Found\r\ncontent-length: 0\r\n\r\n");
}

#[test]
fn create_room_flow() {
    let mut c = Connection::new(3);
    let mut rooms = Rooms::new();
    assert!(matches!(feed(&mut c, b"POST /create HTTP/1.1\r\nContent-Length: 16\r\n\r\n{\"name\":"), HttpAction::Wait));
    assert_eq!(c.http_state, ConnectionState::ReadBody);
    assert!(matches!(feed(&mut c, b"\"lobby\"}"), HttpAction::CreateRoom));
    assert_eq!(c.buffer, b"{\"name\":\"lobby\"}".to_vec());
    let bytes = finish_create_room(&mut c, &mut rooms, Some("lobby".to_string()));
    assert_eq!(String::from_utf8(bytes).unwrap(), "HTTP/1.1 201 Created\r\ncontent-length: 0\r\n\r\n");
    assert!(rooms.contains_room(&"lobby".to_string()));
    assert_eq!(c.http_state, ConnectionState::ReadProtocol);
    assert!(c.buffer.is_empty());
}

#[test]
fn create_room_with_bad_body() {
    let mut c = Connection::new(3);
    let mut rooms = Rooms::new();
    assert!(matches!(feed(&mut c, b"POST /create HTTP/1.1\r\nContent-Length: 2\r\n\r\nxx"), HttpAction::CreateRoom));
    let bytes = finish_create_room(&mut c, &mut rooms, None);
    assert_eq!(String::from_utf8(bytes).unwrap(), "HTTP/1.1 400 Bad Request\r\ncontent-length: 0\r\n\r\n");
    assert_eq!(rooms.len(), 0);
}

#[test]
fn create_without_body_is_not_acceptable() {
    let mut c = Connection::new(3);
    assert_eq!(sent(feed(&mut c, b"POST /create HTTP/1.1\r\n\r\n")), "HTTP/1.1 406 Not Acceptable\r\ncontent-length: 0\r\n\r\n");
}

#[test]
fn body_too_long_is_refused() {
    let mut c = Connection::new(3);
    assert_eq!(sent(feed(&mut c, b"POST /create HTTP/1.1\r\nContent-Length: 2\r\n\r\nxyz")), "HTTP/1.1 413 Content Too Large\r\ncontent-length: 0\r\n\r\n");
}

#[test]
fn wrong_version_is_answered() {
    let mut c = Connection::new(3);
    assert_eq!(sent(feed(&mut c, b"GET / HTTP/1.0\r\n\r\n")), "HTTP/1.0 405 Method Not Allowed\r\ncontent-length: 0\r\n\r\n");
    assert!(c.buffer.is_empty());
}

#[test]
fn answered_connection_starts_over() {
    let mut c = Connection::new(9);
    let a = feed(&mut c, b"PUT /x HTTP/1.1\r\nA: b\r\n\r\n");
    assert_eq!(sent(a), "HTTP/1.1 404 Not Found\r\ncontent-length: 0\r\n\r\n");
    assert_eq!(c.id, 9);
    assert_eq!(c.http_headers.len(), 0);
    assert_eq!(c.http_headers_length, 0);
    assert_eq!(c.http_content_length, 0);
    assert_eq!(c.http_request_uri, "");
}
