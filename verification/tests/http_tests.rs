use roomserver::connection::Connection;
use roomserver::enums::{ConnectionState, ProtocolVersion, RequestMethod};
use roomserver::http::{read_body, read_headers, read_protocol, write_response};
use roomserver::response::Response;

fn conn(bytes: &[u8]) -> Connection {
    let mut c = Connection::new(7);
    c.buffer.extend_from_slice(bytes);
    c
}

fn headers_conn(method: RequestMethod, bytes: &[u8]) -> Connection {
    let mut c = conn(bytes);
    c.http_method = method;
    c.http_version = ProtocolVersion::Http1_1;
    c.http_state = ConnectionState::ReadHeaders;
    c
}

#[test]
fn request_line_is_read() {
    let mut c = conn(b"GET /path?x=1 HTTP/1.1\r\nHost: a\r\n");
    assert!(read_protocol(&mut c).is_ok());
    assert_eq!(c.http_method, RequestMethod::Get);
    assert_eq!(c.http_version, ProtocolVersion::Http1_1);
    assert_eq!(c.http_request_uri, "/path?x=1");
    assert_eq!(c.http_state, ConnectionState::ReadHeaders);
    assert_eq!(c.buffer, b"Host: a\r\n".to_vec());
}

#[test]
fn incomplete_request_line_waits() {
    let mut c = conn(b"GET / HTTP/1.1\r");
    assert!(read_protocol(&mut c).is_ok());
    assert_eq!(c.http_state, ConnectionState::ReadProtocol);
    assert_eq!(c.buffer, b"GET / HTTP/1.1\r".to_vec());
    assert_eq!(c.http_method, RequestMethod::Unknown);
}

#[test]
fn short_request_line_is_bad_request() {
    let mut c = conn(b"GET /\r\nrest");
    let r = read_protocol(&mut c).err().unwrap();
    assert_eq!(r.status, 400);
    assert_eq!(r.status_text, "Bad Request");
    assert_eq!(c.buffer, b"rest".to_vec());
    assert_eq!(c.http_state, ConnectionState::ReadProtocol);
}

#[test]
fn other_versions_are_refused() {
    let mut c = conn(b"POST /create HTTP/1.0\r\n");
    let r = read_protocol(&mut c).err().unwrap();
    assert_eq!(r.status, 405);
    assert_eq!(c.http_version, ProtocolVersion::Http1_0);
    assert_eq!(c.http_method, RequestMethod::Post);
    assert_eq!(c.http_request_uri, "/create");
    assert_eq!(c.http_state, ConnectionState::ReadProtocol);
}

#[test]
fn extra_words_on_request_line_are_ignored() {
    let mut c = conn(b"  PUT  /x   HTTP/1.1 extra\r\n");
    assert!(read_protocol(&mut c).is_ok());
    assert_eq!(c.http_method, RequestMethod::Put);
    assert_eq!(c.http_request_uri, "/x");
}

#[test]
fn headers_with_content_length() {
    let mut c = headers_conn(RequestMethod::Post, b"Host: a\r\nContent-Length: 5\r\n\r\nhello");
    assert!(read_headers(&mut c).is_ok());
    assert_eq!(c.http_content_length, 5);
    assert_eq!(c.http_state, ConnectionState::ValidateHeaders);
    assert_eq!(c.buffer, b"hello".to_vec());
    assert_eq!(c.http_headers.get("host").unwrap(), "a");
    assert_eq!(c.http_headers.get("content-length").unwrap(), "5");
    assert_eq!(c.http_headers_length, "host".len() + 1 + "content-length".len() + 1);
    assert!(!c.websocket);
}

#[test]
fn headers_ask_for_websocket() {
    let mut c = headers_conn(RequestMethod::Get, b"Upgrade: websocket\r\nConnection: Upgrade\r\n\r\n");
    assert!(read_headers(&mut c).is_ok());
    assert!(c.websocket);
    assert_eq!(c.http_state, ConnectionState::ValidateHeaders);
    let mut c = headers_conn(RequestMethod::Get, b"Upgrade: WebSocket\r\n\r\n");
    assert!(read_headers(&mut c).is_ok());
    assert!(!c.websocket);
}

#[test]
fn zero_content_length_is_no_body() {
    let mut c = headers_conn(RequestMethod::Get, b"Content-Length: 0\r\nUpgrade: websocket\r\n\r\n");
    assert!(read_headers(&mut c).is_ok());
    assert_eq!(c.http_content_length, 0);
    assert!(c.websocket);
}

#[test]
fn get_with_body_is_not_acceptable() {
    let mut c = headers_conn(RequestMethod::Get, b"Content-Length: 3\r\n\r\nabc");
    assert_eq!(read_headers(&mut c).err().unwrap().status, 406);
    let mut c = headers_conn(RequestMethod::Head, b"Content-Length: +3\r\n\r\n");
    assert_eq!(read_headers(&mut c).err().unwrap().status, 406);
}

#[test]
fn huge_body_is_too_large() {
    let mut c = headers_conn(RequestMethod::Post, b"Content-Length: 104857601\r\n\r\n");
    assert_eq!(read_headers(&mut c).err().unwrap().status, 413);
    let mut c = headers_conn(RequestMethod::Post, b"Content-Length: 104857600\r\n\r\n");
    assert!(read_headers(&mut c).is_ok());
    assert_eq!(c.http_content_length, 104857600);
}

#[test]
fn unparsable_content_length_is_ignored() {
    let mut c = headers_conn(RequestMethod::Post, b"Content-Length: five\r\n\r\n");
    assert!(read_headers(&mut c).is_ok());
    assert_eq!(c.http_content_length, 0);
    assert_eq!(c.http_state, ConnectionState::ValidateHeaders);
}

#[test]
fn long_header_is_refused() {
    let mut line = b"X: ".to_vec();
    line.extend(std::iter::repeat(b'a').take(16 * 1024));
    line.extend_from_slice(b"\r\n\r\n");
    let mut c = headers_conn(RequestMethod::Get, &line);
    let r = read_headers(&mut c).err().unwrap();
    assert_eq!(r.status, 431);
    assert_eq!(r.status_text, "Request Header Fields Too Large");
    assert_eq!(c.http_headers_length, 1 + 16 * 1024);
}

#[test]
fn many_headers_are_refused() {
    let mut bytes = Vec::new();
    for i in 0..5 {
        bytes.extend_from_slice(format!("h{}: ", i).as_bytes());
        bytes.extend(std::iter::repeat(b'v').take(8000));
        bytes.extend_from_slice(b"\r\n");
    }
    let mut c = headers_conn(RequestMethod::Get, &bytes);
    assert_eq!(read_headers(&mut c).err().unwrap().status, 431);
    assert_eq!(c.http_headers.len(), 4);
}

#[test]
fn line_without_separator_is_ignored() {
    let mut c = headers_conn(RequestMethod::Get, b"NoSeparator\r\nA:b\r\nKey: v1\r\nkey: v2\r\n");
    assert!(read_headers(&mut c).is_ok());
    assert_eq!(c.http_state, ConnectionState::ReadHeaders);
    assert_eq!(c.http_headers.len(), 1);
    assert_eq!(c.http_headers.get("key").unwrap(), "v2");
    assert!(c.buffer.is_empty());
}

#[test]
fn header_value_is_trimmed_and_name_lowered() {
    let mut c = headers_conn(RequestMethod::Get, b"X-Thing:   a b  \r\n");
    assert!(read_headers(&mut c).is_ok());
    assert_eq!(c.http_headers.name_at(0), "x-thing");
    assert_eq!(c.http_headers.value_at(0), "a b");
}

#[test]
fn header_names_are_lowered_by_unicode_rules() {
    let mut c = headers_conn(RequestMethod::Get, "ÀB-Ünï: Ça\r\n".as_bytes());
    assert!(read_headers(&mut c).is_ok());
    assert_eq!(c.http_headers.name_at(0), "àb-ünï");
    assert_eq!(c.http_headers.value_at(0), "Ça");
    assert_eq!(c.http_headers_length, "àb-ünï".len() + "Ça".len());
}

#[test]
fn body_reading() {
    let mut c = conn(b"abc");
    c.http_content_length = 5;
    c.http_state = ConnectionState::ReadBody;
    assert!(read_body(&mut c).is_ok());
    assert_eq!(c.http_state, ConnectionState::ReadBody);
    c.buffer.extend_from_slice(b"de");
    assert!(read_body(&mut c).is_ok());
    assert_eq!(c.http_state, ConnectionState::HandleRequest);
    c.buffer.push(b'f');
    assert_eq!(read_body(&mut c).err().unwrap().status, 413);
}

#[test]
fn response_bytes_and_reset() {
    let mut c = conn(b"left over");
    c.http_version = ProtocolVersion::Http1_1;
    c.http_state = ConnectionState::HandleRequest;
    c.http_method = RequestMethod::Post;
    c.http_request_uri = "/create".to_string();
    c.http_content_length = 9;
    c.http_headers_length = 3;
    c.websocket = true;
    let bytes = write_response(&mut c, &Response::ok());
    assert_eq!(bytes, b"HTTP/1.1 200 OK\r\ncontent-length: 0\r\n\r\n".to_vec());
    assert!(c.buffer.is_empty());
    assert_eq!(c.http_state, ConnectionState::ReadProtocol);
    assert_eq!(c.http_version, ProtocolVersion::Unknown);
    assert_eq!(c.http_method, RequestMethod::Unknown);
    assert_eq!(c.http_request_uri, "");
    assert_eq!(c.http_content_length, 0);
    assert_eq!(c.http_headers_length, 0);
    assert_eq!(c.http_headers.len(), 0);
    assert!(c.websocket);
    assert_eq!(c.id, 7);
}

#[test]
fn response_bytes_with_headers_and_body() {
    let mut c = conn(b"");
    c.http_version = ProtocolVersion::Http1_0;
    let r = Response::not_found().header("x-a", "1").header("x-b", "2").body(b"nope");
    let bytes = write_response(&mut c, &r);
    assert_eq!(
        String::from_utf8(bytes).unwrap(),
        "HTTP/1.0 404 Not Found\r\nx-a: 1\r\nx-b: 2\r\ncontent-length: 4\r\n\r\nnope"
    );
}

#[test]
fn response_with_its_own_length() {
    let mut c = conn(b"");
    let r = Response::new(5, "Odd").header("content-length", "99").body(b"xy");
    let bytes = write_response(&mut c, &r);
    assert_eq!(String::from_utf8(bytes).unwrap(), "HTTP/1.1 5 Odd\r\ncontent-length: 99\r\n\r\nxy");
}
