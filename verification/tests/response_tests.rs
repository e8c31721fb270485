use roomserver::response::Response;

#[test]
fn constructors() {
    let cases = [
        (Response::switch_protocols(), 101, "Switching Protocols"),
        (Response::ok(), 200, "OK"),
        (Response::created(), 201, "Created"),
        (Response::no_content(), 204, "No Content"),
        (Response::bad_request(), 400, "Bad Request"),
        (Response::not_found(), 404, "Not Found"),
        (Response::method_not_allowed(), 405, "Method Not Allowed"),
        (Response::not_acceptable(), 406, "Not Acceptable"),
        (Response::content_too_large(), 413, "Content Too Large"),
        (Response::request_header_fields_too_large(), 431, "Request Header Fields Too Large"),
    ];
    for (r, status, text) in cases {
        assert_eq!(r.status, status);
        assert_eq!(r.status_text, text);
        assert_eq!(r.headers.len(), 0);
        assert!(r.body.is_empty());
    }
}

#[test]
fn header_replaces_earlier_value() {
    let r = Response::ok().header("a", "1").header("b", "2").header("a", "3");
    assert_eq!(r.headers.len(), 2);
    assert_eq!(r.headers.name_at(0), "a");
    assert_eq!(r.headers.value_at(0), "3");
    assert_eq!(r.headers.get("b").unwrap(), "2");
    assert!(r.headers.contains_key("a"));
    assert!(!r.headers.contains_key("A"));
    assert!(r.headers.get("c").is_none());
}

#[test]
fn body_appends() {
    let r = Response::new(299, "Custom").body(b"ab").body(b"").body(b"c");
    assert_eq!(r.body, b"abc".to_vec());
    assert_eq!(r.status, 299);
    assert_eq!(r.status_text, "Custom");
}
