//! Reading HTTP requests out of a connection's buffer, and writing responses.

use vstd::prelude::*;
use vstd::utf8::encode_utf8;
use crate::connection::{
    first_line_end, find_line_end, lemma_line_end_from, reset_view, take_line, Connection,
    ConnectionView,
};
use crate::enums::{method_of, version_of, version_text, ConnectionState, ProtocolVersion, RequestMethod};
use crate::headers::{insert_entry, lookup};
use crate::response::{
    bad_request_view, content_too_large_view, header_fields_too_large_view,
    method_not_allowed_view, not_acceptable_view, Response, ResponseView,
};
use crate::text::{
    char_vecs_view, chars_equal, chars_of, decode_lossy, find_separator, first_sep, lowercase,
    parse_usize, parse_usize_spec, split_whitespace, string_from_chars, trim, trim_chars,
    unicode_lowercase, utf8_lossy, words,
};

verus! {

/// What a step of request reading ends with: `Ok`, or the error response.
pub open spec fn outcome(r: Result<(), Response>) -> Result<(), ResponseView> {
    match r {
        Ok(_) => Ok(()),
        Err(x) => Err(x@),
    }
}

/// The text of a received line: decoded with replacement of invalid UTF-8,
/// and trimmed.
pub open spec fn line_text(line: Seq<u8>) -> Seq<char> {
    trim(utf8_lossy(line))
}

/// The characters of a received line, decoded and trimmed.
pub fn read_chars(buffer: &[u8]) -> (r: Vec<char>)
    ensures
        r@ == line_text(buffer@),
{
    let decoded = decode_lossy(buffer);
    trim_chars(decoded.as_slice())
}

/// The text of a received line, decoded and trimmed.
pub fn read_string_buffer(buffer: &[u8]) -> (r: String)
    ensures
        r@ == line_text(buffer@),
{
    let chars = read_chars(buffer);
    string_from_chars(chars.as_slice())
}

/// Reading the request line: the first complete line is consumed and split
/// at white space into method, target and version; fewer than three words is
/// a bad request, and any version but HTTP/1.1 is refused.
pub open spec fn read_protocol_spec(c: ConnectionView) -> (ConnectionView, Result<(), ResponseView>) {
    match first_line_end(c.buffer) {
        None => (c, Ok(())),
        Some(i) => {
            let c1 = ConnectionView { buffer: c.buffer.skip(i + 1), ..c };
            let parts = words(line_text(c.buffer.take(i + 1)));
            if parts.len() < 3 {
                (c1, Err(bad_request_view()))
            } else {
                let c2 = ConnectionView {
                    method: method_of(parts[0]),
                    version: version_of(parts[2]),
                    uri: parts[1],
                    ..c1
                };
                if c2.version == ProtocolVersion::Http1_1 {
                    (ConnectionView { state: ConnectionState::ReadHeaders, ..c2 }, Ok(()))
                } else {
                    (c2, Err(method_not_allowed_view()))
                }
            }
        },
    }
}

/// Reads the request line from the connection's buffer, if it is complete.
pub fn read_protocol(connection: &mut Connection) -> (r: Result<(), Response>)
    ensures
        (final(connection)@, outcome(r)) == read_protocol_spec(old(connection)@),
{
    let found = find_line_end(connection.buffer.as_slice());
    match found {
        None => Ok(()),
        Some(i) => {
            proof {
                lemma_line_end_from(connection.buffer@, 0);
            }
            let line = take_line(&mut connection.buffer, i);
            let text = read_chars(line.as_slice());
            let parts = split_whitespace(text.as_slice());
            proof {
                assert(char_vecs_view(parts@).len() == parts@.len());
            }
            if parts.len() < 3 {
                return Err(Response::bad_request());
            }
            proof {
                assert(char_vecs_view(parts@)[0] == parts@[0]@);
                assert(char_vecs_view(parts@)[1] == parts@[1]@);
                assert(char_vecs_view(parts@)[2] == parts@[2]@);
            }
            connection.http_method = RequestMethod::from_chars(parts[0].as_slice());
            connection.http_version = ProtocolVersion::from_chars(parts[2].as_slice());
            connection.http_request_uri = string_from_chars(parts[1].as_slice());
            if connection.http_version == ProtocolVersion::Http1_1 {
                connection.http_state = ConnectionState::ReadHeaders;
                Ok(())
            } else {
                Err(Response::method_not_allowed())
            }
        },
    }
}

/// Reading the body: more bytes than announced is refused; exactly the
/// announced number completes the request.
pub open spec fn read_body_spec(c: ConnectionView) -> (ConnectionView, Result<(), ResponseView>) {
    if c.buffer.len() > c.content_length {
        (c, Err(content_too_large_view()))
    } else if c.buffer.len() == c.content_length {
        (ConnectionView { state: ConnectionState::HandleRequest, ..c }, Ok(()))
    } else {
        (c, Ok(()))
    }
}

/// Checks the body received so far against the announced content length.
pub fn read_body(connection: &mut Connection) -> (r: Result<(), Response>)
    ensures
        (final(connection)@, outcome(r)) == read_body_spec(old(connection)@),
{
    let content_buffer_length = connection.buffer.len();
    if content_buffer_length > connection.http_content_length {
        return Err(Response::content_too_large());
    } else if content_buffer_length == connection.http_content_length {
        connection.http_state = ConnectionState::HandleRequest;
    }
    Ok(())
}


/// Largest body accepted, in bytes.
pub const HARD_LIMIT_CONTENT_LENGTH: usize = 100 * 1024 * 1024;

/// Largest total size of header names and values, in bytes.
pub const HARD_LIMIT_HEADERS_LENGTH: usize = 32 * 1024;

/// Largest size of one header name and value, in bytes.
pub const HARD_LIMIT_HEADER_LENGTH: usize = 16 * 1024;

/// `"content-length"`.
pub open spec fn content_length_name() -> Seq<char> {
    seq!['c', 'o', 'n', 't', 'e', 'n', 't', '-', 'l', 'e', 'n', 'g', 't', 'h']
}

/// `"upgrade"`.
pub open spec fn upgrade_name() -> Seq<char> {
    seq!['u', 'p', 'g', 'r', 'a', 'd', 'e']
}

/// `"websocket"`.
pub open spec fn websocket_text() -> Seq<char> {
    seq!['w', 'e', 'b', 's', 'o', 'c', 'k', 'e', 't']
}

fn content_length_chars() -> (r: [char; 14])
    ensures
        r@ == content_length_name(),
{
    let r = ['c', 'o', 'n', 't', 'e', 'n', 't', '-', 'l', 'e', 'n', 'g', 't', 'h'];
    assert(r@ =~= content_length_name());
    r
}

fn upgrade_chars() -> (r: [char; 7])
    ensures
        r@ == upgrade_name(),
{
    let r = ['u', 'p', 'g', 'r', 'a', 'd', 'e'];
    assert(r@ =~= upgrade_name());
    r
}

fn websocket_chars() -> (r: [char; 9])
    ensures
        r@ == websocket_text(),
{
    let r = ['w', 'e', 'b', 's', 'o', 'c', 'k', 'e', 't'];
    assert(r@ =~= websocket_text());
    r
}

/// Size in bytes of `s` as a `String` reports it.
pub open spec fn utf8_len(s: Seq<char>) -> int {
    (encode_utf8(s).len() as usize) as int
}

/// Reading one header line that is not blank: a line without `": "` is
/// ignored; otherwise the name (before it, lower-cased) and the value (after
/// it, trimmed) are counted against the limits and stored. The running total
/// is kept even when a limit is exceeded (at most `usize::MAX`).
pub open spec fn header_line_spec(c: ConnectionView, line: Seq<u8>) -> (ConnectionView, Result<(), ResponseView>) {
    let text = line_text(line);
    match first_sep(text) {
        None => (c, Ok(())),
        Some(p) => {
            let key = unicode_lowercase(text.take(p));
            let value = trim(text.skip(p + 2));
            let header_length = utf8_len(key) + utf8_len(value);
            let total = c.headers_length + header_length;
            let c1 = ConnectionView {
                headers_length: if total <= usize::MAX {
                    total as usize
                } else {
                    usize::MAX
                },
                ..c
            };
            if header_length > HARD_LIMIT_HEADER_LENGTH || total > HARD_LIMIT_HEADERS_LENGTH {
                (c1, Err(header_fields_too_large_view()))
            } else {
                (ConnectionView { headers: insert_entry(c.headers, key, value), ..c1 }, Ok(()))
            }
        },
    }
}

/// The blank line that ends the headers: a positive `content-length` is
/// checked (no body on GET or HEAD, at most the hard limit) and kept;
/// without one, the connection asks for WebSocket when `upgrade` is
/// `websocket`. Either way validation comes next.
pub open spec fn end_of_headers_spec(c: ConnectionView) -> (ConnectionView, Result<(), ResponseView>) {
    let declared = match lookup(c.headers, content_length_name()) {
        Some(v) => parse_usize_spec(v),
        None => None,
    };
    if declared is Some && declared->0 > 0 {
        if c.method == RequestMethod::Get || c.method == RequestMethod::Head {
            (c, Err(not_acceptable_view()))
        } else if declared->0 > HARD_LIMIT_CONTENT_LENGTH {
            (c, Err(content_too_large_view()))
        } else {
            (
                ConnectionView {
                    content_length: declared->0,
                    state: ConnectionState::ValidateHeaders,
                    ..c
                },
                Ok(()),
            )
        }
    } else {
        (
            ConnectionView {
                websocket: lookup(c.headers, upgrade_name()) == Some(websocket_text()),
                state: ConnectionState::ValidateHeaders,
                ..c
            },
            Ok(()),
        )
    }
}

/// Reading header lines until the blank line, an error, or the end of the
/// complete lines in the buffer.
pub open spec fn read_headers_spec(c: ConnectionView) -> (ConnectionView, Result<(), ResponseView>)
    decreases c.buffer.len(),
{
    match first_line_end(c.buffer) {
        None => (c, Ok(())),
        Some(i) => {
            proof {
                lemma_line_end_from(c.buffer, 0);
            }
            let line = c.buffer.take(i + 1);
            let rest = c.buffer.skip(i + 1);
            let c1 = ConnectionView { buffer: rest, ..c };
            if line.len() == 2 {
                end_of_headers_spec(c1)
            } else {
                let (c2, r) = header_line_spec(c1, line);
                if r is Err {
                    (c2, r)
                } else {
                    read_headers_spec(ConnectionView { buffer: rest, ..c2 })
                }
            }
        },
    }
}

/// Reads one header line that is not blank.
fn read_header_line(connection: &mut Connection, line: &[u8]) -> (r: Result<(), Response>)
    ensures
        (final(connection)@, outcome(r)) == header_line_spec(old(connection)@, line@),
{
    let text = read_chars(line);
    let sep = find_separator(text.as_slice());
    match sep {
        None => Ok(()),
        Some(p) => {
            let mut name: Vec<char> = Vec::new();
            let mut k: usize = 0;
            while k < p
                invariant
                    p + 1 < text@.len(),
                    k <= p,
                    name@ == text@.take(k as int),
                decreases p - k,
            {
                name.push(text[k]);
                k = k + 1;
            }
            let mut rest: Vec<char> = Vec::new();
            let n = text.len();
            let mut k: usize = p + 2;
            while k < n
                invariant
                    n == text@.len(),
                    p + 2 <= k <= n,
                    rest@ == text@.subrange(p + 2, k as int),
                decreases n - k,
            {
                rest.push(text[k]);
                k = k + 1;
            }
            assert(rest@ =~= text@.skip(p + 2));
            let key_chars = lowercase(name.as_slice());
            let value_chars = trim_chars(rest.as_slice());
            let key = string_from_chars(key_chars.as_slice());
            let value = string_from_chars(value_chars.as_slice());
            let key_len = key.as_str().len();
            let value_len = value.as_str().len();
            let ghost total: int = connection.http_headers_length + key_len + value_len;
            let header_length = key_len.checked_add(value_len);
            match header_length {
                None => {
                    connection.http_headers_length = usize::MAX;
                    Err(Response::request_header_fields_too_large())
                },
                Some(header_length) => {
                    match connection.http_headers_length.checked_add(header_length) {
                        None => {
                            connection.http_headers_length = usize::MAX;
                            Err(Response::request_header_fields_too_large())
                        },
                        Some(sum) => {
                            connection.http_headers_length = sum;
                            if header_length > HARD_LIMIT_HEADER_LENGTH || sum
                                > HARD_LIMIT_HEADERS_LENGTH {
                                return Err(Response::request_header_fields_too_large());
                            }
                            connection.http_headers.insert(key, value);
                            Ok(())
                        },
                    }
                },
            }
        },
    }
}

/// Handles the blank line that ends the headers.
fn end_of_headers(connection: &mut Connection) -> (r: Result<(), Response>)
    ensures
        (final(connection)@, outcome(r)) == end_of_headers_spec(old(connection)@),
{
    let declared = match connection.http_headers.get_chars(&content_length_chars()) {
        Some(v) => {
            let chars = chars_of(v.as_str());
            parse_usize(chars.as_slice())
        },
        None => None,
    };
    match declared {
        Some(content_length) => {
            if content_length > 0 {
                if connection.http_method == RequestMethod::Get || connection.http_method
                    == RequestMethod::Head {
                    return Err(Response::not_acceptable());
                } else if content_length > HARD_LIMIT_CONTENT_LENGTH {
                    return Err(Response::content_too_large());
                }
                connection.http_content_length = content_length;
                connection.http_state = ConnectionState::ValidateHeaders;
                return Ok(());
            }
        },
        None => {},
    }
    let upgrade = match connection.http_headers.get_chars(&upgrade_chars()) {
        Some(v) => {
            let chars = chars_of(v.as_str());
            chars_equal(chars.as_slice(), &websocket_chars())
        },
        None => false,
    };
    connection.websocket = upgrade;
    connection.http_state = ConnectionState::ValidateHeaders;
    Ok(())
}

/// Reads header lines from the connection's buffer until the blank line, an
/// error, or the end of the complete lines received.
pub fn read_headers(connection: &mut Connection) -> (r: Result<(), Response>)
    ensures
        (final(connection)@, outcome(r)) == read_headers_spec(old(connection)@),
{
    loop
        invariant
            read_headers_spec(connection@) == read_headers_spec(old(connection)@),
        decreases connection.buffer@.len(),
    {
        let found = find_line_end(connection.buffer.as_slice());
        match found {
            None => {
                return Ok(());
            },
            Some(i) => {
                proof {
                    lemma_line_end_from(connection.buffer@, 0);
                }
                let ghost before = connection@;
                let line = take_line(&mut connection.buffer, i);
                if line.len() == 2 {
                    return end_of_headers(connection);
                }
                let ghost c1 = connection@;
                let r = read_header_line(connection, line.as_slice());
                match r {
                    Err(e) => {
                        return Err(e);
                    },
                    Ok(()) => {
                        assert(connection@ == (ConnectionView { buffer: c1.buffer, ..connection@ }));
                    },
                }
            },
        }
    }
}


/// Carriage return and line feed.
pub open spec fn crlf() -> Seq<u8> {
    seq![13u8, 10u8]
}

/// The decimal digits of `n` in ASCII.
pub open spec fn decimal(n: nat) -> Seq<u8>
    decreases n,
{
    if n < 10 {
        seq![(48 + n) as u8]
    } else {
        decimal(n / 10).push((48 + n % 10) as u8)
    }
}

/// `name: value` lines for the header fields `h`, in order.
pub open spec fn header_lines(h: Seq<(Seq<char>, Seq<char>)>) -> Seq<u8>
    decreases h.len(),
{
    if h.len() == 0 {
        Seq::empty()
    } else {
        header_lines(h.drop_last()) + encode_utf8(h.last().0) + seq![58u8, 32u8] + encode_utf8(
            h.last().1,
        ) + crlf()
    }
}

/// The `content-length` line for a body of `n` bytes.
pub open spec fn content_length_line(n: nat) -> Seq<u8> {
    encode_utf8(content_length_name()) + seq![58u8, 32u8] + decimal(n) + crlf()
}

/// The bytes of response `r` sent on a connection that speaks version `v`:
/// the status line, the header fields in order, a `content-length` line
/// unless one is set, a blank line, and the body.
pub open spec fn response_bytes(v: ProtocolVersion, r: ResponseView) -> Seq<u8> {
    encode_utf8(version_text(v)) + seq![32u8] + decimal(r.status as nat) + seq![32u8]
        + encode_utf8(r.text) + crlf() + header_lines(r.headers) + (if lookup(
        r.headers,
        content_length_name(),
    ) is None {
        content_length_line(r.body.len())
    } else {
        Seq::empty()
    }) + crlf() + r.body
}

fn push_all(out: &mut Vec<u8>, b: &[u8])
    ensures
        final(out)@ == old(out)@ + b@,
{
    let n = b.len();
    let mut i: usize = 0;
    while i < n
        invariant
            n == b@.len(),
            i <= n,
            out@ == old(out)@ + b@.take(i as int),
        decreases n - i,
    {
        out.push(b[i]);
        assert(b@.take(i + 1) =~= b@.take(i as int).push(b@[i as int]));
        i = i + 1;
    }
    assert(b@.take(n as int) =~= b@);
}

fn push_text(out: &mut Vec<u8>, s: &String)
    ensures
        final(out)@ == old(out)@ + encode_utf8(s@),
{
    push_all(out, s.as_str().as_bytes());
}

fn push_decimal(out: &mut Vec<u8>, n: usize)
    ensures
        final(out)@ == old(out)@ + decimal(n as nat),
    decreases n,
{
    if n >= 10 {
        push_decimal(out, n / 10);
    }
    out.push((48 + n % 10) as u8);
    proof {
        if n < 10 {
            assert(decimal(n as nat) == seq![(48 + n) as u8]);
        }
    }
    assert(out@ =~= old(out)@ + decimal(n as nat)) by {
        if n >= 10 {
            assert(decimal(n as nat) == decimal((n / 10) as nat).push((48 + n % 10) as u8));
        }
    }
}

/// Builds the bytes of `response` for the connection, and makes the
/// connection ready for its next request.
pub fn write_response(connection: &mut Connection, response: &Response) -> (bytes: Vec<u8>)
    ensures
        bytes@ == response_bytes(old(connection)@.version, response@),
        final(connection)@ == reset_view(old(connection)@),
        lookup(response@.headers, content_length_name()) is None ==> ({
            let d = decimal(response@.body.len());
            let tail = content_length_prefix() + d + seq![13u8, 10u8, 13u8, 10u8] + response@.body;
            &&& is_digits(d)
            &&& decimal_value(d) == response@.body.len()
            &&& bytes@.len() >= tail.len()
            &&& bytes@.subrange(bytes@.len() - tail.len(), bytes@.len() as int) == tail
        }),
{
    proof {
        if lookup(response@.headers, content_length_name()) is None {
            lemma_content_length_written(connection.http_version, response@);
        }
    }
    let mut out: Vec<u8> = Vec::new();
    let version = connection.http_version.to_string();
    push_text(&mut out, &version);
    out.push(32);
    push_decimal(&mut out, response.status as usize);
    out.push(32);
    push_text(&mut out, &response.status_text);
    out.push(13);
    out.push(10);
    let ghost status_line = out@;
    let h = &response.headers;
    let n = h.len();
    let mut i: usize = 0;
    assert(h@.take(0) =~= Seq::<(Seq<char>, Seq<char>)>::empty());
    while i < n
        invariant
            n == h@.len(),
            i <= n,
            out@ == status_line + header_lines(h@.take(i as int)),
        decreases n - i,
    {
        let ghost before = out@;
        push_text(&mut out, h.name_at(i));
        out.push(58);
        out.push(32);
        push_text(&mut out, h.value_at(i));
        out.push(13);
        out.push(10);
        assert(h@.take(i + 1).drop_last() =~= h@.take(i as int));
        assert(h@.take(i + 1).last() == h@[i as int]);
        assert(out@ =~= status_line + header_lines(h@.take(i + 1)));
        i = i + 1;
    }
    assert(h@.take(n as int) =~= h@);
    let ghost with_headers = out@;
    if h.get_chars(&content_length_chars()).is_none() {
        let name = string_from_chars(&content_length_chars());
        push_text(&mut out, &name);
        out.push(58);
        out.push(32);
        push_decimal(&mut out, response.body.len());
        out.push(13);
        out.push(10);
        assert(out@ =~= with_headers + content_length_line(response.body@.len()));
    } else {
        assert(out@ =~= with_headers + Seq::<u8>::empty());
    }
    out.push(13);
    out.push(10);
    push_all(&mut out, response.body.as_slice());
    assert(out@ =~= response_bytes(connection.http_version, response@));
    connection.buffer.clear();
    connection.http_content_length = 0;
    connection.http_headers_length = 0;
    connection.http_headers.clear();
    connection.http_method = RequestMethod::Unknown;
    connection.http_request_uri = String::new();
    connection.http_state = ConnectionState::ReadProtocol;
    connection.http_version = ProtocolVersion::Unknown;
    out
}


/// Header reading that succeeds keeps the counted size of the header fields
/// within its limit and the announced body within its limit.
pub proof fn lemma_read_headers_limits(c: ConnectionView)
    requires
        c.headers_length <= HARD_LIMIT_HEADERS_LENGTH,
        c.content_length <= HARD_LIMIT_CONTENT_LENGTH,
    ensures
        read_headers_spec(c).1 is Ok ==> read_headers_spec(c).0.headers_length
            <= HARD_LIMIT_HEADERS_LENGTH && read_headers_spec(c).0.content_length
            <= HARD_LIMIT_CONTENT_LENGTH,
    decreases c.buffer.len(),
{
    match first_line_end(c.buffer) {
        None => {},
        Some(i) => {
            lemma_line_end_from(c.buffer, 0);
            let line = c.buffer.take(i + 1);
            let rest = c.buffer.skip(i + 1);
            let c1 = ConnectionView { buffer: rest, ..c };
            if line.len() != 2 {
                let (c2, r) = header_line_spec(c1, line);
                if r is Ok {
                    lemma_read_headers_limits(ConnectionView { buffer: rest, ..c2 });
                }
            }
        },
    }
}

/// A request line that is read without error names HTTP/1.1, and header
/// reading comes next.
pub proof fn lemma_request_line_version(c: ConnectionView)
    requires
        first_line_end(c.buffer) is Some,
        read_protocol_spec(c).1 is Ok,
    ensures
        read_protocol_spec(c).0.version == ProtocolVersion::Http1_1,
        read_protocol_spec(c).0.state == ConnectionState::ReadHeaders,
{
}


/// Header reading keeps the connection's id.
pub proof fn lemma_read_headers_keeps_id(c: ConnectionView)
    ensures
        read_headers_spec(c).0.id == c.id,
    decreases c.buffer.len(),
{
    match first_line_end(c.buffer) {
        None => {},
        Some(i) => {
            lemma_line_end_from(c.buffer, 0);
            let line = c.buffer.take(i + 1);
            let rest = c.buffer.skip(i + 1);
            let c1 = ConnectionView { buffer: rest, ..c };
            if line.len() != 2 {
                let (c2, r) = header_line_spec(c1, line);
                if r is Ok {
                    lemma_read_headers_keeps_id(ConnectionView { buffer: rest, ..c2 });
                }
            }
        },
    }
}


/// The number that the ASCII decimal digits `s` denote.
pub open spec fn decimal_value(s: Seq<u8>) -> nat
    decreases s.len(),
{
    if s.len() == 0 {
        0
    } else {
        decimal_value(s.drop_last()) * 10 + (s.last() - 48) as nat
    }
}

/// Every byte of `s` is an ASCII decimal digit.
pub open spec fn is_digits(s: Seq<u8>) -> bool {
    forall|i: int| 0 <= i < s.len() ==> 48 <= #[trigger] s[i] <= 57
}

/// The decimal form of `n` is a non-empty string of digits, without leading
/// zero, that denotes `n`.
pub proof fn lemma_decimal(n: nat)
    ensures
        decimal(n).len() >= 1,
        is_digits(decimal(n)),
        decimal_value(decimal(n)) == n,
        n > 0 ==> decimal(n)[0] != 48,
    decreases n,
{
    if n >= 10 {
        lemma_decimal(n / 10);
        let d = decimal(n);
        assert(d.drop_last() =~= decimal(n / 10));
        assert(d[0] == decimal(n / 10)[0]);
        assert(n % 10 < 10);
        assert(d.last() == 48 + n % 10);
        assert(decimal_value(d) == decimal_value(decimal(n / 10)) * 10 + n % 10);
        assert((n / 10) * 10 + n % 10 == n) by (nonlinear_arith);
        assert(decimal_value(d) == n);
        assert(n / 10 > 0) by (nonlinear_arith)
            requires
                n >= 10,
        ;
    } else {
        assert(decimal(n).drop_last() =~= Seq::<u8>::empty());
        assert(decimal(n).last() == 48 + n);
        assert(decimal_value(decimal(n).drop_last()) == 0);
        assert(decimal_value(decimal(n)) == n);
    }
}

/// `"content-length: "` in bytes.
pub open spec fn content_length_prefix() -> Seq<u8> {
    seq![99u8, 111, 110, 116, 101, 110, 116, 45, 108, 101, 110, 103, 116, 104, 58, 32]
}

/// A response without a `content-length` field is written ending with a
/// `content-length` line whose digits denote the full length of the body,
/// then the blank line, then the body itself.
pub proof fn lemma_content_length_written(v: ProtocolVersion, r: ResponseView)
    requires
        lookup(r.headers, content_length_name()) is None,
    ensures
        ({
            let b = response_bytes(v, r);
            let d = decimal(r.body.len());
            let tail = content_length_prefix() + d + seq![13u8, 10u8, 13u8, 10u8] + r.body;
            &&& is_digits(d)
            &&& decimal_value(d) == r.body.len()
            &&& b.len() >= tail.len()
            &&& b.subrange(b.len() - tail.len(), b.len() as int) == tail
        }),
{
    broadcast use vstd::utf8::is_ascii_chars_encode_utf8;

    lemma_decimal(r.body.len());
    let name = content_length_name();
    assert(vstd::utf8::is_ascii_chars(name));
    assert(encode_utf8(name) + seq![58u8, 32u8] =~= content_length_prefix()) by {
        assert(encode_utf8(name).len() == 14);
        assert forall|i: int| 0 <= i < 14 implies #[trigger] encode_utf8(name)[i]
            == content_length_prefix()[i] by {
            assert(name[i] as u8 == encode_utf8(name)[i]);
        }
    }
    let b = response_bytes(v, r);
    let d = decimal(r.body.len());
    let tail = content_length_prefix() + d + seq![13u8, 10u8, 13u8, 10u8] + r.body;
    let head = encode_utf8(version_text(v)) + seq![32u8] + decimal(r.status as nat) + seq![32u8]
        + encode_utf8(r.text) + crlf() + header_lines(r.headers);
    assert(b =~= head + tail);
    assert(b.subrange(b.len() - tail.len(), b.len() as int) =~= tail);
}

} // verus!
