//! The state of one client connection, and the request lines in its buffer.

use vstd::prelude::*;
use crate::enums::{ConnectionState, ProtocolVersion, RequestMethod};
use crate::headers::HeaderMap;

verus! {

/// What a connection holds.
#[verifier::ext_equal]
pub struct ConnectionView {
    pub id: u128,
    pub buffer: Seq<u8>,
    pub websocket: bool,
    pub content_length: usize,
    pub headers_length: usize,
    pub headers: Seq<(Seq<char>, Seq<char>)>,
    pub method: RequestMethod,
    pub uri: Seq<char>,
    pub state: ConnectionState,
    pub version: ProtocolVersion,
}

/// One client connection: the bytes received and not yet consumed, and what
/// has been read of the current request.
pub struct Connection {
    pub id: u128,
    pub buffer: Vec<u8>,
    pub websocket: bool,
    pub http_content_length: usize,
    pub http_headers_length: usize,
    pub http_headers: HeaderMap,
    pub http_method: RequestMethod,
    pub http_request_uri: String,
    pub http_state: ConnectionState,
    pub http_version: ProtocolVersion,
}

impl View for Connection {
    type V = ConnectionView;

    open spec fn view(&self) -> ConnectionView {
        ConnectionView {
            id: self.id,
            buffer: self.buffer@,
            websocket: self.websocket,
            content_length: self.http_content_length,
            headers_length: self.http_headers_length,
            headers: self.http_headers@,
            method: self.http_method,
            uri: self.http_request_uri@,
            state: self.http_state,
            version: self.http_version,
        }
    }
}

/// `c` ready for a new request: nothing buffered, nothing read; its id and
/// whether it speaks WebSocket are kept.
pub open spec fn reset_view(c: ConnectionView) -> ConnectionView {
    ConnectionView {
        buffer: Seq::empty(),
        content_length: 0,
        headers_length: 0,
        headers: Seq::empty(),
        method: RequestMethod::Unknown,
        uri: Seq::empty(),
        state: ConnectionState::ReadProtocol,
        version: ProtocolVersion::Unknown,
        ..c
    }
}

/// A fresh connection with the given id.
pub open spec fn fresh_view(id: u128) -> ConnectionView {
    ConnectionView {
        id,
        buffer: Seq::empty(),
        websocket: false,
        content_length: 0,
        headers_length: 0,
        headers: Seq::empty(),
        method: RequestMethod::Unknown,
        uri: Seq::empty(),
        state: ConnectionState::ReadProtocol,
        version: ProtocolVersion::Unknown,
    }
}

impl Connection {
    /// A connection that has received nothing yet.
    pub fn new(id: u128) -> (r: Connection)
        ensures
            r@ == fresh_view(id),
    {
        Connection {
            id,
            buffer: Vec::new(),
            websocket: false,
            http_content_length: 0,
            http_headers_length: 0,
            http_headers: HeaderMap::new(),
            http_method: RequestMethod::Unknown,
            http_request_uri: String::new(),
            http_state: ConnectionState::ReadProtocol,
            http_version: ProtocolVersion::Unknown,
        }
    }
}

/// `buf[i]` is a line feed that follows a carriage return.
pub open spec fn is_line_end(buf: Seq<u8>, i: int) -> bool {
    1 <= i < buf.len() && buf[i] == 10 && buf[i - 1] == 13
}

/// The first line end in `buf` at or after `k`.
pub open spec fn line_end_from(buf: Seq<u8>, k: int) -> Option<int>
    decreases buf.len() - k,
{
    if k >= buf.len() || k < 0 {
        None
    } else if is_line_end(buf, k) {
        Some(k)
    } else {
        line_end_from(buf, k + 1)
    }
}

/// The end of the first line of `buf` (the position of its `\n`), if a
/// complete line is there.
pub open spec fn first_line_end(buf: Seq<u8>) -> Option<int> {
    line_end_from(buf, 0)
}

/// A line end found from `k` is a line end at or after `k`, and the first one.
pub proof fn lemma_line_end_from(buf: Seq<u8>, k: int)
    requires
        0 <= k,
    ensures
        match line_end_from(buf, k) {
            Some(i) => k <= i && is_line_end(buf, i) && forall|j: int| k <= j < i ==> !is_line_end(buf, j),
            None => forall|j: int| k <= j ==> !is_line_end(buf, j),
        },
    decreases buf.len() - k,
{
    if k < buf.len() && !is_line_end(buf, k) {
        lemma_line_end_from(buf, k + 1);
    }
}

/// Position of the `\n` that ends the first complete line of `buf`.
pub fn find_line_end(buf: &[u8]) -> (r: Option<usize>)
    ensures
        match r {
            Some(i) => first_line_end(buf@) == Some(i as int),
            None => first_line_end(buf@) is None,
        },
{
    let n = buf.len();
    let mut i: usize = 0;
    while i < n
        invariant
            n == buf@.len(),
            i <= n,
            first_line_end(buf@) == line_end_from(buf@, i as int),
        decreases n - i,
    {
        if i > 0 && buf[i] == 10 && buf[i - 1] == 13 {
            return Some(i);
        }
        i = i + 1;
    }
    None
}

/// Splits the first `i + 1` bytes off `buffer` and returns them.
pub fn take_line(buffer: &mut Vec<u8>, i: usize) -> (line: Vec<u8>)
    requires
        i < old(buffer)@.len(),
    ensures
        line@ == old(buffer)@.take(i + 1),
        final(buffer)@ == old(buffer)@.skip(i + 1),
{
    let n = buffer.len();
    let mut line = buffer.split_off(i + 1);
    std::mem::swap(&mut line, buffer);
    line
}

} // verus!
