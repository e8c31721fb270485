use roomserver::enums::{ProtocolVersion, RequestMethod};

#[test]
fn protocol_version_from_known_texts() {
    assert_eq!(ProtocolVersion::from("HTTP/1.0"), ProtocolVersion::Http1_0);
    assert_eq!(ProtocolVersion::from("HTTP/1.1"), ProtocolVersion::Http1_1);
    assert_eq!(ProtocolVersion::from("HTTP/2.0"), ProtocolVersion::Http2_0);
}

#[test]
fn protocol_version_from_other_texts() {
    assert_eq!(ProtocolVersion::from("http/1.1"), ProtocolVersion::Unknown);
    assert_eq!(ProtocolVersion::from("HTTP/1.1 "), ProtocolVersion::Unknown);
    assert_eq!(ProtocolVersion::from(""), ProtocolVersion::Unknown);
    assert_eq!(ProtocolVersion::from("HTTP/3"), ProtocolVersion::Unknown);
}

#[test]
fn protocol_version_text() {
    assert_eq!(ProtocolVersion::Http1_0.to_string(), "HTTP/1.0");
    assert_eq!(ProtocolVersion::Http1_1.to_string(), "HTTP/1.1");
    assert_eq!(ProtocolVersion::Http2_0.to_string(), "HTTP/2.0");
    assert_eq!(ProtocolVersion::Unknown.to_string(), "HTTP/1.1");
}

#[test]
fn protocol_version_text_reads_back() {
    for v in [ProtocolVersion::Http1_0, ProtocolVersion::Http1_1, ProtocolVersion::Http2_0] {
        assert_eq!(ProtocolVersion::from(&v.to_string()), v);
    }
}

#[test]
fn request_method_from_names() {
    assert_eq!(RequestMethod::from("GET"), RequestMethod::Get);
    assert_eq!(RequestMethod::from("POST"), RequestMethod::Post);
    assert_eq!(RequestMethod::from("PUT"), RequestMethod::Put);
    assert_eq!(RequestMethod::from("PATCH"), RequestMethod::Patch);
    assert_eq!(RequestMethod::from("DELETE"), RequestMethod::Delete);
    assert_eq!(RequestMethod::from("HEAD"), RequestMethod::Head);
    assert_eq!(RequestMethod::from("OPTIONS"), RequestMethod::Options);
}

#[test]
fn request_method_matches_by_end() {
    assert_eq!(RequestMethod::from("XGET"), RequestMethod::Get);
    assert_eq!(RequestMethod::from("\u{feff}POST"), RequestMethod::Post);
    assert_eq!(RequestMethod::from("get"), RequestMethod::Unknown);
    assert_eq!(RequestMethod::from("PUTS"), RequestMethod::Unknown);
    assert_eq!(RequestMethod::from(""), RequestMethod::Unknown);
}

#[test]
fn request_method_from_chars() {
    let chars: Vec<char> = "DELETE".chars().collect();
    assert_eq!(RequestMethod::from_chars(&chars), RequestMethod::Delete);
    let chars: Vec<char> = "HTTP/2.0".chars().collect();
    assert_eq!(ProtocolVersion::from_chars(&chars), ProtocolVersion::Http2_0);
}
