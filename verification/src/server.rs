//! The request cycle of an HTTP connection: what a read calls for, from the
//! request line to the answer.

use vstd::prelude::*;
use crate::connection::{reset_view, Connection, ConnectionView};
use crate::enums::{ConnectionState, RequestMethod};
use crate::http::{
    outcome, read_body, read_body_spec, read_headers, read_headers_spec, read_protocol,
    read_protocol_spec, response_bytes, write_response, lemma_read_headers_keeps_id,
};
use crate::response::{
    bad_request_view, created_view, not_acceptable_view, not_found_view, Response, ResponseView,
};
use crate::rooms::{create_spec, Rooms};
use crate::text::{chars_equal, chars_of};
use crate::upgrade::{handle_upgrade, handle_upgrade_spec};

verus! {

/// `p` is the position of the first `?` in `uri`.
pub open spec fn is_first_question(uri: Seq<char>, p: int) -> bool {
    0 <= p < uri.len() && uri[p] == '?' && forall|q: int| 0 <= q < p ==> #[trigger] uri[q] != '?'
}

/// The path of a request target: what comes before its first `?`.
pub open spec fn path_of(uri: Seq<char>) -> Seq<char> {
    if exists|p: int| 0 <= p < uri.len() && uri[p] == '?' {
        uri.take(choose|p: int| #[trigger] is_first_question(uri, p))
    } else {
        uri
    }
}

/// `"/"`.
pub open spec fn root_path() -> Seq<char> {
    seq!['/']
}

/// `"/create"`.
pub open spec fn create_path() -> Seq<char> {
    seq!['/', 'c', 'r', 'e', 'a', 't', 'e']
}

/// Checking the request against the routes: `GET /` takes no body,
/// `POST /create` needs one, and anything else is not found.
pub open spec fn validate_spec(c: ConnectionView) -> (ConnectionView, Result<(), ResponseView>) {
    let path = path_of(c.uri);
    if c.method == RequestMethod::Get && path == root_path() {
        if c.content_length > 0 {
            (c, Err(not_acceptable_view()))
        } else {
            (ConnectionView { state: ConnectionState::HandleRequest, ..c }, Ok(()))
        }
    } else if c.method == RequestMethod::Post && path == create_path() {
        if c.content_length > 0 {
            (ConnectionView { state: ConnectionState::ReadBody, ..c }, Ok(()))
        } else {
            (c, Err(not_acceptable_view()))
        }
    } else {
        (c, Err(not_found_view()))
    }
}

/// What is to be done after a read.
#[derive(Debug)]
pub enum HttpAction {
    /// The request is not complete yet.
    Wait,
    /// Send these bytes: a response was written and the connection reset.
    Send(Vec<u8>),
    /// Send these bytes, the handshake that turns the connection into a
    /// WebSocket connection; the connection was reset.
    Upgrade(Vec<u8>),
    /// The body of `POST /create` is complete in the buffer; it names the room
    /// to create (see `finish_create_room`).
    CreateRoom,
}

/// An action, by the bytes it sends.
pub enum HttpActionView {
    Wait,
    Send(Seq<u8>),
    Upgrade(Seq<u8>),
    CreateRoom,
}

/// The action of `a`.
pub open spec fn action_view(a: HttpAction) -> HttpActionView {
    match a {
        HttpAction::Wait => HttpActionView::Wait,
        HttpAction::Send(b) => HttpActionView::Send(b@),
        HttpAction::Upgrade(b) => HttpActionView::Upgrade(b@),
        HttpAction::CreateRoom => HttpActionView::CreateRoom,
    }
}

/// Answering with `r`: its bytes for the connection's version, and the
/// connection reset.
pub open spec fn respond(c: ConnectionView, r: ResponseView) -> (ConnectionView, HttpActionView) {
    (reset_view(c), HttpActionView::Send(response_bytes(c.version, r)))
}

/// Answering a complete request: the WebSocket handshake on `GET /` that
/// asks for it, room creation on `POST /create`, and not found otherwise.
pub open spec fn handle_request_spec(c: ConnectionView) -> (ConnectionView, HttpActionView) {
    let path = path_of(c.uri);
    if c.method == RequestMethod::Get && path == root_path() && c.websocket {
        let r = handle_upgrade_spec(c.headers);
        if r.status == 101 {
            (reset_view(c), HttpActionView::Upgrade(response_bytes(c.version, r)))
        } else {
            respond(c, r)
        }
    } else if c.method == RequestMethod::Post && path == create_path() {
        (c, HttpActionView::CreateRoom)
    } else {
        respond(c, not_found_view())
    }
}

/// One pass over an HTTP connection after a read: each stage runs when the
/// connection is at it, an error is answered at once, and a complete request
/// is handled.
pub open spec fn http_step(c: ConnectionView) -> (ConnectionView, HttpActionView) {
    let (c1, r1) = if c.state == ConnectionState::ReadProtocol {
        read_protocol_spec(c)
    } else {
        (c, Ok(()))
    };
    match r1 {
        Err(e) => respond(c1, e),
        Ok(_) => {
            let (c2, r2) = if c1.state == ConnectionState::ReadHeaders {
                read_headers_spec(c1)
            } else {
                (c1, Ok(()))
            };
            match r2 {
                Err(e) => respond(c2, e),
                Ok(_) => {
                    let (c3, r3) = if c2.state == ConnectionState::ValidateHeaders {
                        validate_spec(c2)
                    } else {
                        (c2, Ok(()))
                    };
                    match r3 {
                        Err(e) => respond(c3, e),
                        Ok(_) => {
                            let (c4, r4) = if c3.state == ConnectionState::ReadBody {
                                read_body_spec(c3)
                            } else {
                                (c3, Ok(()))
                            };
                            match r4 {
                                Err(e) => respond(c4, e),
                                Ok(_) => if c4.state == ConnectionState::HandleRequest {
                                    handle_request_spec(c4)
                                } else {
                                    (c4, HttpActionView::Wait)
                                },
                            }
                        },
                    }
                },
            }
        },
    }
}

/// The path of the connection's request target.
fn request_path(connection: &Connection) -> (r: Vec<char>)
    ensures
        r@ == path_of(connection.http_request_uri@),
{
    let uri = chars_of(connection.http_request_uri.as_str());
    let n = uri.len();
    let mut r: Vec<char> = Vec::new();
    let mut i: usize = 0;
    while i < n
        invariant
            n == uri@.len(),
            uri@ == connection.http_request_uri@,
            i <= n,
            r@ == uri@.take(i as int),
            forall|q: int| 0 <= q < i ==> #[trigger] uri@[q] != '?',
        decreases n - i,
    {
        if uri[i] == '?' {
            proof {
                assert(is_first_question(uri@, i as int));
                let k = choose|p: int| #[trigger] is_first_question(uri@, p);
                assert(is_first_question(uri@, k));
                if k < i {
                    assert(uri@[k] != '?');
                }
                if i < k {
                    assert(uri@[i as int] != '?');
                }
                assert(exists|p: int| 0 <= p < uri@.len() && uri@[p] == '?');
            }
            return r;
        }
        r.push(uri[i]);
        assert(uri@.take(i + 1) =~= uri@.take(i as int).push(uri@[i as int]));
        i = i + 1;
    }
    assert(uri@.take(n as int) =~= uri@);
    r
}

fn is_root(path: &Vec<char>) -> (r: bool)
    ensures
        r == (path@ == root_path()),
{
    let lit = ['/'];
    assert(lit@ =~= root_path());
    chars_equal(path.as_slice(), &lit)
}

fn is_create(path: &Vec<char>) -> (r: bool)
    ensures
        r == (path@ == create_path()),
{
    let lit = ['/', 'c', 'r', 'e', 'a', 't', 'e'];
    assert(lit@ =~= create_path());
    chars_equal(path.as_slice(), &lit)
}

/// Checks the request against the routes.
fn validate(connection: &mut Connection) -> (r: Result<(), Response>)
    ensures
        (final(connection)@, outcome(r)) == validate_spec(old(connection)@),
{
    let path = request_path(connection);
    if connection.http_method == RequestMethod::Get && is_root(&path) {
        if connection.http_content_length > 0 {
            return Err(Response::not_acceptable());
        } else {
            connection.http_state = ConnectionState::HandleRequest;
        }
    } else if connection.http_method == RequestMethod::Post && is_create(&path) {
        if connection.http_content_length > 0 {
            connection.http_state = ConnectionState::ReadBody;
        } else {
            return Err(Response::not_acceptable());
        }
    } else {
        return Err(Response::not_found());
    }
    Ok(())
}

/// Runs the stages of an HTTP connection that its buffer allows, and says
/// what is to be sent.
pub fn handle_http(connection: &mut Connection) -> (r: HttpAction)
    ensures
        (final(connection)@, action_view(r)) == http_step(old(connection)@),
{
    if connection.http_state == ConnectionState::ReadProtocol {
        if let Err(response) = read_protocol(connection) {
            return HttpAction::Send(write_response(connection, &response));
        }
    }
    if connection.http_state == ConnectionState::ReadHeaders {
        if let Err(response) = read_headers(connection) {
            return HttpAction::Send(write_response(connection, &response));
        }
    }
    if connection.http_state == ConnectionState::ValidateHeaders {
        if let Err(response) = validate(connection) {
            return HttpAction::Send(write_response(connection, &response));
        }
    }
    if connection.http_state == ConnectionState::ReadBody {
        if let Err(response) = read_body(connection) {
            return HttpAction::Send(write_response(connection, &response));
        }
    }
    if connection.http_state == ConnectionState::HandleRequest {
        let path = request_path(connection);
        if connection.http_method == RequestMethod::Get && is_root(&path) && connection.websocket {
            let response = handle_upgrade(connection);
            let upgraded = response.status == 101;
            let bytes = write_response(connection, &response);
            if upgraded {
                return HttpAction::Upgrade(bytes);
            } else {
                return HttpAction::Send(bytes);
            }
        } else if connection.http_method == RequestMethod::Post && is_create(&path) {
            return HttpAction::CreateRoom;
        } else {
            return HttpAction::Send(write_response(connection, &Response::not_found()));
        }
    }
    HttpAction::Wait
}

/// Finishes `POST /create`: `name` is the room named by the body, or `None`
/// when the body could not be read as room-creation input. Creates the room
/// unless it exists and answers 201, or answers 400.
pub fn finish_create_room(connection: &mut Connection, rooms: &mut Rooms, name: Option<String>) -> (bytes: Vec<u8>)
    ensures
        final(connection)@ == reset_view(old(connection)@),
        match name {
            Some(n) => bytes@ == response_bytes(old(connection)@.version, created_view())
                && final(rooms)@ == create_spec(old(rooms)@, n@),
            None => bytes@ == response_bytes(old(connection)@.version, bad_request_view())
                && final(rooms)@ == old(rooms)@,
        },
{
    match name {
        None => write_response(connection, &Response::bad_request()),
        Some(n) => {
            rooms.create_room(n);
            write_response(connection, &Response::created())
        },
    }
}


/// Whenever a pass answers (with a response or the WebSocket handshake), the
/// connection starts over: nothing buffered, nothing read, its id kept. A
/// pass never changes the id.
pub proof fn lemma_answer_resets(c: ConnectionView)
    ensures
        http_step(c).0.id == c.id,
        (http_step(c).1 is Send || http_step(c).1 is Upgrade) ==> {
            let d = http_step(c).0;
            &&& d.state == ConnectionState::ReadProtocol
            &&& d.buffer.len() == 0
            &&& d.headers.len() == 0
            &&& d.headers_length == 0
            &&& d.content_length == 0
            &&& d.uri.len() == 0
        },
{
    let (c1, r1) = if c.state == ConnectionState::ReadProtocol {
        read_protocol_spec(c)
    } else {
        (c, Ok(()))
    };
    lemma_read_headers_keeps_id(c1);
}

} // verus!
