//! Request methods, protocol versions and the states of an HTTP connection.

use vstd::prelude::*;
use crate::text::{chars_end_with, chars_equal, chars_of, ends_with, string_from_chars};

verus! {

/// Where an HTTP connection stands in reading a request.
#[derive(Debug, PartialEq, Eq, Structural, Clone, Copy)]
pub enum ConnectionState {
    ReadProtocol,
    ReadHeaders,
    ValidateHeaders,
    ReadBody,
    HandleRequest,
}

/// The protocol version named on a request line.
#[derive(Debug, PartialEq, Eq, Structural, Clone, Copy)]
pub enum ProtocolVersion {
    Unknown,
    Http1_0,
    Http1_1,
    Http2_0,
}

/// The method named on a request line.
#[derive(Debug, PartialEq, Eq, Structural, Clone, Copy)]
pub enum RequestMethod {
    Unknown,
    Delete,
    Get,
    Head,
    Options,
    Patch,
    Post,
    Put,
}

/// `"HTTP/1.0"`.
pub open spec fn http_1_0() -> Seq<char> {
    seq!['H', 'T', 'T', 'P', '/', '1', '.', '0']
}

/// `"HTTP/1.1"`.
pub open spec fn http_1_1() -> Seq<char> {
    seq!['H', 'T', 'T', 'P', '/', '1', '.', '1']
}

/// `"HTTP/2.0"`.
pub open spec fn http_2_0() -> Seq<char> {
    seq!['H', 'T', 'T', 'P', '/', '2', '.', '0']
}

/// The version that the text `s` names: exactly one of the three known
/// version strings, or `Unknown`.
pub open spec fn version_of(s: Seq<char>) -> ProtocolVersion {
    if s == http_1_0() {
        ProtocolVersion::Http1_0
    } else if s == http_1_1() {
        ProtocolVersion::Http1_1
    } else if s == http_2_0() {
        ProtocolVersion::Http2_0
    } else {
        ProtocolVersion::Unknown
    }
}

/// How a version is written in a status line; `Unknown` is written as HTTP/1.1.
pub open spec fn version_text(v: ProtocolVersion) -> Seq<char> {
    match v {
        ProtocolVersion::Http1_0 => http_1_0(),
        ProtocolVersion::Http2_0 => http_2_0(),
        _ => http_1_1(),
    }
}

/// The method that the text `s` names: the first of GET, POST, PUT, PATCH,
/// DELETE, HEAD, OPTIONS that `s` ends with, or `Unknown`.
pub open spec fn method_of(s: Seq<char>) -> RequestMethod {
    if ends_with(s, seq!['G', 'E', 'T']) {
        RequestMethod::Get
    } else if ends_with(s, seq!['P', 'O', 'S', 'T']) {
        RequestMethod::Post
    } else if ends_with(s, seq!['P', 'U', 'T']) {
        RequestMethod::Put
    } else if ends_with(s, seq!['P', 'A', 'T', 'C', 'H']) {
        RequestMethod::Patch
    } else if ends_with(s, seq!['D', 'E', 'L', 'E', 'T', 'E']) {
        RequestMethod::Delete
    } else if ends_with(s, seq!['H', 'E', 'A', 'D']) {
        RequestMethod::Head
    } else if ends_with(s, seq!['O', 'P', 'T', 'I', 'O', 'N', 'S']) {
        RequestMethod::Options
    } else {
        RequestMethod::Unknown
    }
}

fn text_1_0() -> (r: [char; 8])
    ensures
        r@ == http_1_0(),
{
    let r = ['H', 'T', 'T', 'P', '/', '1', '.', '0'];
    assert(r@ =~= http_1_0());
    r
}

fn text_1_1() -> (r: [char; 8])
    ensures
        r@ == http_1_1(),
{
    let r = ['H', 'T', 'T', 'P', '/', '1', '.', '1'];
    assert(r@ =~= http_1_1());
    r
}

fn text_2_0() -> (r: [char; 8])
    ensures
        r@ == http_2_0(),
{
    let r = ['H', 'T', 'T', 'P', '/', '2', '.', '0'];
    assert(r@ =~= http_2_0());
    r
}

impl ProtocolVersion {
    /// The version named by `value`.
    pub fn from(value: &str) -> (r: ProtocolVersion)
        ensures
            r == version_of(value@),
    {
        let chars = chars_of(value);
        Self::from_chars(chars.as_slice())
    }

    /// The version named by the characters `value`.
    pub fn from_chars(value: &[char]) -> (r: ProtocolVersion)
        ensures
            r == version_of(value@),
    {
        if chars_equal(value, &text_1_0()) {
            ProtocolVersion::Http1_0
        } else if chars_equal(value, &text_1_1()) {
            ProtocolVersion::Http1_1
        } else if chars_equal(value, &text_2_0()) {
            ProtocolVersion::Http2_0
        } else {
            ProtocolVersion::Unknown
        }
    }

    /// The text of this version as written in a status line.
    pub fn to_string(&self) -> (r: String)
        ensures
            r@ == version_text(*self),
    {
        match self {
            ProtocolVersion::Http1_0 => string_from_chars(&text_1_0()),
            ProtocolVersion::Http2_0 => string_from_chars(&text_2_0()),
            _ => string_from_chars(&text_1_1()),
        }
    }
}

impl RequestMethod {
    /// The method named by `value`, which is matched by its end.
    pub fn from(value: &str) -> (r: RequestMethod)
        ensures
            r == method_of(value@),
    {
        let chars = chars_of(value);
        Self::from_chars(chars.as_slice())
    }

    /// The method named by the characters `value`.
    pub fn from_chars(value: &[char]) -> (r: RequestMethod)
        ensures
            r == method_of(value@),
    {
        let get = ['G', 'E', 'T'];
        let post = ['P', 'O', 'S', 'T'];
        let put = ['P', 'U', 'T'];
        let patch = ['P', 'A', 'T', 'C', 'H'];
        let delete = ['D', 'E', 'L', 'E', 'T', 'E'];
        let head = ['H', 'E', 'A', 'D'];
        let options = ['O', 'P', 'T', 'I', 'O', 'N', 'S'];
        assert(get@ =~= seq!['G', 'E', 'T']);
        assert(post@ =~= seq!['P', 'O', 'S', 'T']);
        assert(put@ =~= seq!['P', 'U', 'T']);
        assert(patch@ =~= seq!['P', 'A', 'T', 'C', 'H']);
        assert(delete@ =~= seq!['D', 'E', 'L', 'E', 'T', 'E']);
        assert(head@ =~= seq!['H', 'E', 'A', 'D']);
        assert(options@ =~= seq!['O', 'P', 'T', 'I', 'O', 'N', 'S']);
        if chars_end_with(value, &get) {
            RequestMethod::Get
        } else if chars_end_with(value, &post) {
            RequestMethod::Post
        } else if chars_end_with(value, &put) {
            RequestMethod::Put
        } else if chars_end_with(value, &patch) {
            RequestMethod::Patch
        } else if chars_end_with(value, &delete) {
            RequestMethod::Delete
        } else if chars_end_with(value, &head) {
            RequestMethod::Head
        } else if chars_end_with(value, &options) {
            RequestMethod::Options
        } else {
            RequestMethod::Unknown
        }
    }
}

/// Reading back the text of a known version gives that version.
pub proof fn lemma_version_text_roundtrip(v: ProtocolVersion)
    requires
        v != ProtocolVersion::Unknown,
    ensures
        version_of(version_text(v)) == v,
{
    assert(http_1_0() != http_1_1() && http_1_0() != http_2_0()) by {
        assert(http_1_0()[7] != http_1_1()[7]);
        assert(http_1_0()[5] != http_2_0()[5]);
    }
    assert(http_1_1() != http_2_0()) by {
        assert(http_1_1()[5] != http_2_0()[5]);
    }
}

} // verus!
