//! WebSocket traffic on an upgraded connection: frames in, room actions out.

use vstd::prelude::*;
use crate::connection::{Connection, ConnectionView};
use crate::frame::{build_frame, frame_bytes, frame_overflows, read_frame, read_frame_spec};
use crate::rooms::{leave_all_spec, recipients_spec, subscribe_spec, unsubscribe_spec, Rooms};
use crate::headers::lookup;

verus! {

/// The messages exchanged as JSON over WebSocket.
#[allow(non_camel_case_types)]
#[derive(Debug)]
pub enum WsMessage {
    SUBSCRIBE { room: String },
    SUBSCRIBE_REJECTED { room: String },
    UNSUBSCRIBE { room: String },
    NOTIFY { room: String, text: String },
    SEND { room: String, text: String },
}

/// What to do after a client's message has been handled.
#[derive(Debug)]
pub enum WsAction {
    /// Send this message back to the client.
    Reply(WsMessage),
    /// The client now receives what is sent to this room.
    Subscribed(String),
    /// The client no longer receives what is sent to this room.
    Unsubscribed(String),
    /// Send this message to each of these connections.
    Broadcast(Vec<u128>, WsMessage),
    /// A message that clients do not send; nothing to do.
    Ignored,
}

/// Handles a message from connection `id`: subscribing to an existing room
/// (or being told it does not exist), unsubscribing, or sending a text that
/// every other subscriber of the room receives as a notification.
pub fn handle_ws_message(rooms: &mut Rooms, id: u128, msg: WsMessage) -> (r: WsAction)
    ensures
        match msg {
            WsMessage::SUBSCRIBE { room } => if lookup(old(rooms)@, room@) is Some {
                &&& final(rooms)@ == subscribe_spec(old(rooms)@, room@, id)
                &&& r matches WsAction::Subscribed(n) && n@ == room@
            } else {
                &&& final(rooms)@ == old(rooms)@
                &&& r matches WsAction::Reply(WsMessage::SUBSCRIBE_REJECTED { room: n }) && n@
                    == room@
            },
            WsMessage::UNSUBSCRIBE { room } => {
                &&& final(rooms)@ == unsubscribe_spec(old(rooms)@, room@, id)
                &&& r matches WsAction::Unsubscribed(n) && n@ == room@
            },
            WsMessage::SEND { room, text } => {
                &&& final(rooms)@ == old(rooms)@
                &&& r matches WsAction::Broadcast(ids, WsMessage::NOTIFY { room: n, text: t })
                    && ids@ == recipients_spec(old(rooms)@, room@, id) && n@ == room@ && t@
                    == text@
            },
            _ => final(rooms)@ == old(rooms)@ && r is Ignored,
        },
{
    match msg {
        WsMessage::SUBSCRIBE { room } => {
            if rooms.subscribe(&room, id) {
                WsAction::Subscribed(room)
            } else {
                WsAction::Reply(WsMessage::SUBSCRIBE_REJECTED { room })
            }
        },
        WsMessage::UNSUBSCRIBE { room } => {
            rooms.unsubscribe(&room, id);
            WsAction::Unsubscribed(room)
        },
        WsMessage::SEND { room, text } => {
            let ids = rooms.recipients(&room, id);
            WsAction::Broadcast(ids, WsMessage::NOTIFY { room, text })
        },
        _ => WsAction::Ignored,
    }
}

/// What a read from an upgraded connection calls for.
#[derive(Debug)]
pub enum WsStep {
    /// No complete frame to act on.
    Nothing,
    /// The client closed: send this close frame; the connection has left
    /// these rooms (all rooms, by name).
    Closed(Vec<u8>, Vec<String>),
    /// A text or binary frame carried this payload.
    Data(Vec<u8>),
}

/// Reads the next frame of an upgraded connection. A close frame is answered
/// with a close frame, ends WebSocket mode and removes the connection from
/// every room; a data frame hands its payload on.
pub fn handle_ws(connection: &mut Connection, rooms: &mut Rooms) -> (r: WsStep)
    requires
        !frame_overflows(old(connection)@.buffer),
    ensures
        match read_frame_spec(old(connection)@.buffer) {
            None => r is Nothing && final(connection)@ == old(connection)@ && final(rooms)@ == old(rooms)@,
            Some((_, None)) => {
                &&& r matches WsStep::Closed(frame, names) && frame@ == frame_bytes(
                    true,
                    8,
                    Seq::empty(),
                ) && names@.map_values(|n: String| n@) == old(rooms)@.map_values(
                    |e: (Seq<char>, Seq<u128>)| e.0,
                )
                &&& final(connection)@ == (ConnectionView { websocket: false, ..old(connection)@ })
                &&& final(rooms)@ == leave_all_spec(old(rooms)@, old(connection)@.id)
            },
            Some((_, Some(p))) => {
                &&& r matches WsStep::Data(payload) && payload@ == p
                &&& final(connection)@ == (ConnectionView { buffer: Seq::empty(), ..old(connection)@ })
                &&& final(rooms)@ == old(rooms)@
            },
        },
{
    match read_frame(&mut connection.buffer) {
        None => WsStep::Nothing,
        Some((_, None)) => {
            let empty: [u8; 0] = [];
            let frame = build_frame(true, 8, &empty);
            assert(empty@ =~= Seq::<u8>::empty());
            connection.websocket = false;
            let names = rooms.leave_all(connection.id);
            WsStep::Closed(frame, names)
        },
        Some((_, Some(payload))) => WsStep::Data(payload),
    }
}

} // verus!
