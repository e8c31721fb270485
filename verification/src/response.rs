//! HTTP responses and their constructors.

use vstd::prelude::*;
use crate::headers::{insert_entry, HeaderMap};

verus! {

#[verifier::ext_equal]
/// What a response holds: status code, reason phrase, header fields in order,
/// and body.
pub struct ResponseView {
    pub status: u16,
    pub text: Seq<char>,
    pub headers: Seq<(Seq<char>, Seq<char>)>,
    pub body: Seq<u8>,
}

/// A response with the given status and reason phrase, no header field and
/// an empty body.
pub open spec fn plain_response(status: u16, text: Seq<char>) -> ResponseView {
    ResponseView {
        status,
        text,
        headers: Seq::empty(),
        body: Seq::empty(),
    }
}

/// An HTTP response.
pub struct Response {
    pub status: u16,
    pub status_text: String,
    pub headers: HeaderMap,
    pub body: Vec<u8>,
}

impl View for Response {
    type V = ResponseView;

    open spec fn view(&self) -> ResponseView {
        ResponseView {
            status: self.status,
            text: self.status_text@,
            headers: self.headers@,
            body: self.body@,
        }
    }
}

/// 101 Switching Protocols.
pub open spec fn switch_protocols_view() -> ResponseView {
    plain_response(101, "Switching Protocols"@)
}

/// 200 OK.
pub open spec fn ok_view() -> ResponseView {
    plain_response(200, "OK"@)
}

/// 201 Created.
pub open spec fn created_view() -> ResponseView {
    plain_response(201, "Created"@)
}

/// 204 No Content.
pub open spec fn no_content_view() -> ResponseView {
    plain_response(204, "No Content"@)
}

/// 400 Bad Request.
pub open spec fn bad_request_view() -> ResponseView {
    plain_response(400, "Bad Request"@)
}

/// 404 Not Found.
pub open spec fn not_found_view() -> ResponseView {
    plain_response(404, "Not Found"@)
}

/// 405 Method Not Allowed.
pub open spec fn method_not_allowed_view() -> ResponseView {
    plain_response(405, "Method Not Allowed"@)
}

/// 406 Not Acceptable.
pub open spec fn not_acceptable_view() -> ResponseView {
    plain_response(406, "Not Acceptable"@)
}

/// 413 Content Too Large.
pub open spec fn content_too_large_view() -> ResponseView {
    plain_response(413, "Content Too Large"@)
}

/// 431 Request Header Fields Too Large.
pub open spec fn header_fields_too_large_view() -> ResponseView {
    plain_response(431, "Request Header Fields Too Large"@)
}

impl Response {
    /// This response with the header field `key` set to `value`.
    pub fn header(self, key: &str, value: &str) -> (r: Response)
        ensures
            r@ == (ResponseView { headers: insert_entry(self@.headers, key@, value@), ..self@ }),
    {
        let mut r = self;
        r.headers.insert(key.to_owned(), value.to_owned());
        r
    }

    /// This response with `buffer` appended to its body.
    pub fn body(self, buffer: &[u8]) -> (r: Response)
        ensures
            r@ == (ResponseView { body: self@.body + buffer@, ..self@ }),
    {
        let mut r = self;
        let n = buffer.len();
        let mut i: usize = 0;
        while i < n
            invariant
                n == buffer@.len(),
                i <= n,
                r.status == self.status,
                r.status_text@ == self.status_text@,
                r.headers@ == self.headers@,
                r.body@ == self@.body + buffer@.take(i as int),
            decreases n - i,
        {
            r.body.push(buffer[i]);
            assert(self@.body + buffer@.take(i + 1) =~= self@.body + buffer@.take(i as int) + seq![
                buffer@[i as int],
            ]);
            i = i + 1;
        }
        assert(buffer@.take(n as int) =~= buffer@);
        r
    }

    /// A response with the given status and reason phrase, no header field and an empty body.
    pub fn new(status: u16, status_text: &str) -> (r: Response)
        ensures
            r@ == plain_response(status, status_text@),
    {
        Response {
            status,
            status_text: status_text.to_owned(),
            headers: HeaderMap::new(),
            body: Vec::new(),
        }
    }

    /// 101 Switching Protocols.
    pub fn switch_protocols() -> (r: Response)
        ensures
            r@ == switch_protocols_view(),
    {
        Response::new(101, "Switching Protocols")
    }

    /// 200 OK.
    pub fn ok() -> (r: Response)
        ensures
            r@ == ok_view(),
    {
        Response::new(200, "OK")
    }

    /// 201 Created.
    pub fn created() -> (r: Response)
        ensures
            r@ == created_view(),
    {
        Response::new(201, "Created")
    }

    /// 204 No Content.
    pub fn no_content() -> (r: Response)
        ensures
            r@ == no_content_view(),
    {
        Response::new(204, "No Content")
    }

    /// 400 Bad Request.
    pub fn bad_request() -> (r: Response)
        ensures
            r@ == bad_request_view(),
    {
        Response::new(400, "Bad Request")
    }

    /// 404 Not Found.
    pub fn not_found() -> (r: Response)
        ensures
            r@ == not_found_view(),
    {
        Response::new(404, "Not Found")
    }

    /// 405 Method Not Allowed.
    pub fn method_not_allowed() -> (r: Response)
        ensures
            r@ == method_not_allowed_view(),
    {
        Response::new(405, "Method Not Allowed")
    }

    /// 406 Not Acceptable.
    pub fn not_acceptable() -> (r: Response)
        ensures
            r@ == not_acceptable_view(),
    {
        Response::new(406, "Not Acceptable")
    }

    /// 413 Content Too Large.
    pub fn content_too_large() -> (r: Response)
        ensures
            r@ == content_too_large_view(),
    {
        Response::new(413, "Content Too Large")
    }

    /// 431 Request Header Fields Too Large.
    pub fn request_header_fields_too_large() -> (r: Response)
        ensures
            r@ == header_fields_too_large_view(),
    {
        Response::new(431, "Request Header Fields Too Large")
    }
}

} // verus!
