//! The WebSocket opening handshake (RFC 6455, section 4.2).

use vstd::prelude::*;
use vstd::utf8::encode_utf8;
use crate::connection::Connection;
use crate::headers::{insert_entry, lookup};
use crate::response::{not_acceptable_view, switch_protocols_view, Response, ResponseView};
use crate::text::{chars_equal, chars_of};

verus! {

/// What SHA-1 gives for `data` (20 bytes).
pub uninterp spec fn sha1_digest(data: Seq<u8>) -> Seq<u8>;

/// Hashes `data` with `sha1::Sha1` through `Digest::digest`. Claimed: the
/// result is `sha1_digest(data)` and is 20 bytes long (the output size of
/// SHA-1); the hash function itself is left to the name.
#[verifier::external_body]
fn sha1(data: &[u8]) -> (r: Vec<u8>)
    ensures
        r@ == sha1_digest(data@),
        r@.len() == 20,
{
    <sha1::Sha1 as sha1::Digest>::digest(data).to_vec()
}

/// The character of the standard base64 alphabet for the 6-bit value `v`.
pub open spec fn base64_char(v: int) -> char {
    if v < 26 {
        (65 + v) as char
    } else if v < 52 {
        (97 + v - 26) as char
    } else if v < 62 {
        (48 + v - 52) as char
    } else if v == 62 {
        '+'
    } else {
        '/'
    }
}

/// Standard base64 with padding (RFC 4648, section 4): each group of three
/// bytes becomes four characters, and a last group of one or two bytes is
/// padded with `=`.
pub open spec fn base64_encode(b: Seq<u8>) -> Seq<char>
    decreases b.len(),
{
    if b.len() == 0 {
        Seq::empty()
    } else if b.len() == 1 {
        seq![base64_char((b[0] as int) / 4), base64_char(((b[0] as int) % 4) * 16), '=', '=']
    } else if b.len() == 2 {
        seq![
            base64_char((b[0] as int) / 4),
            base64_char(((b[0] as int) % 4) * 16 + (b[1] as int) / 16),
            base64_char(((b[1] as int) % 16) * 4),
            '=',
        ]
    } else {
        seq![
            base64_char((b[0] as int) / 4),
            base64_char(((b[0] as int) % 4) * 16 + (b[1] as int) / 16),
            base64_char(((b[1] as int) % 16) * 4 + (b[2] as int) / 64),
            base64_char((b[2] as int) % 64),
        ] + base64_encode(b.skip(3))
    }
}

/// Encodes `bytes` with `base64::prelude::BASE64_STANDARD` (`Engine::encode`).
/// Claimed: the result is the standard padded base64 of `bytes`. The crate
/// panics only when the encoded length overflows `usize`, which the bound
/// on the input rules out.
#[verifier::external_body]
fn base64_standard(bytes: &[u8]) -> (r: String)
    requires
        bytes@.len() <= usize::MAX / 2,
    ensures
        r@ == base64_encode(bytes@),
{
    base64::Engine::encode(&base64::prelude::BASE64_STANDARD, bytes)
}

/// The GUID that RFC 6455 appends to the client's key.
pub open spec fn websocket_guid() -> Seq<char> {
    "258EAFA5-E914-47DA-95CA-C5AB0DC85B11"@
}

/// The bytes hashed for the accept key: the client's key followed by the GUID.
pub open spec fn accept_input(key: Seq<char>) -> Seq<u8> {
    encode_utf8(key) + encode_utf8(websocket_guid())
}

/// The handshake answer for a key whose SHA-1 input hashes to `digest`:
/// 101 with `upgrade`, `connection` and `sec-websocket-accept` set.
pub open spec fn accepted_view(digest: Seq<u8>) -> ResponseView {
    ResponseView {
        headers: insert_entry(
            insert_entry(
                insert_entry(switch_protocols_view().headers, "upgrade"@, "websocket"@),
                "connection"@,
                "Upgrade"@,
            ),
            "sec-websocket-accept"@,
            base64_encode(digest),
        ),
        ..switch_protocols_view()
    }
}

/// The answer to an upgrade request with header fields `h`: refused unless
/// `sec-websocket-version` is `13` and `sec-websocket-key` is present.
pub open spec fn handle_upgrade_spec(h: Seq<(Seq<char>, Seq<char>)>) -> ResponseView {
    match lookup(h, "sec-websocket-version"@) {
        Some(v) => if v == seq!['1', '3'] {
            match lookup(h, "sec-websocket-key"@) {
                Some(k) => accepted_view(sha1_digest(accept_input(k))),
                None => not_acceptable_view(),
            }
        } else {
            not_acceptable_view()
        },
        None => not_acceptable_view(),
    }
}

/// The `sec-websocket-accept` value for the client key `key`: base64 of the
/// SHA-1 of the key followed by the GUID.
pub fn generate_sec_websocket_accept(key: &str) -> (r: String)
    ensures
        r@ == base64_encode(sha1_digest(accept_input(key@))),
{
    let mut input: Vec<u8> = Vec::new();
    let kb = key.as_bytes();
    let gb = "258EAFA5-E914-47DA-95CA-C5AB0DC85B11".as_bytes();
    append(&mut input, kb);
    append(&mut input, gb);
    let digest = sha1(input.as_slice());
    base64_standard(digest.as_slice())
}

fn append(out: &mut Vec<u8>, b: &[u8])
    ensures
        final(out)@ == old(out)@ + b@,
{
    let n = b.len();
    let mut i: usize = 0;
    while i < n
        invariant
            n == b@.len(),
            i <= n,
            out@ == old(out)@ + b@.take(i as int),
        decreases n - i,
    {
        out.push(b[i]);
        assert(b@.take(i + 1) =~= b@.take(i as int).push(b@[i as int]));
        i = i + 1;
    }
    assert(b@.take(n as int) =~= b@);
}

/// The handshake answer for the SHA-1 `digest` of the key and GUID.
pub fn accept_response(digest: &[u8]) -> (r: Response)
    requires
        digest@.len() <= usize::MAX / 2,
    ensures
        r@ == accepted_view(digest@),
{
    let accept = base64_standard(digest);
    Response::switch_protocols().header("upgrade", "websocket").header("connection", "Upgrade").header(
        "sec-websocket-accept",
        accept.as_str(),
    )
}

/// Answers a WebSocket upgrade request on `connection`.
pub fn handle_upgrade(connection: &Connection) -> (r: Response)
    ensures
        r@ == handle_upgrade_spec(connection.http_headers@),
{
    let version = connection.http_headers.get("sec-websocket-version");
    let thirteen = ['1', '3'];
    assert(thirteen@ =~= seq!['1', '3']);
    match version {
        None => {
            return Response::not_acceptable();
        },
        Some(v) => {
            let chars = chars_of(v.as_str());
            if !chars_equal(chars.as_slice(), &thirteen) {
                return Response::not_acceptable();
            }
        },
    }
    match connection.http_headers.get("sec-websocket-key") {
        None => Response::not_acceptable(),
        Some(key) => {
            let mut input: Vec<u8> = Vec::new();
            append(&mut input, key.as_str().as_bytes());
            append(&mut input, "258EAFA5-E914-47DA-95CA-C5AB0DC85B11".as_bytes());
            let digest = sha1(input.as_slice());
            accept_response(digest.as_slice())
        },
    }
}

} // verus!
