use roomserver::connection::Connection;
use roomserver::frame::build_frame;
use roomserver::rooms::Rooms;
use roomserver::ws::{handle_ws, handle_ws_message, WsAction, WsMessage, WsStep};

fn s(x: &str) -> String {
    x.to_string()
}

#[test]
fn create_is_idempotent() {
    let mut rooms = Rooms::new();
    rooms.create_room(s("a"));
    assert!(rooms.subscribe(&s("a"), 1));
    rooms.create_room(s("a"));
    assert_eq!(rooms.len(), 1);
    assert_eq!(rooms.members(&s("a")).unwrap(), vec![1]);
    rooms.create_room(s("b"));
    assert_eq!(rooms.len(), 2);
    assert_eq!(rooms.name_at(1), "b");
    assert!(rooms.contains_room(&s("b")));
    assert!(!rooms.contains_room(&s("c")));
}

#[test]
fn subscribe_needs_room() {
    let mut rooms = Rooms::new();
    assert!(!rooms.subscribe(&s("x"), 1));
    assert!(rooms.members(&s("x")).is_none());
    rooms.create_room(s("x"));
    assert!(rooms.subscribe(&s("x"), 1));
    assert!(rooms.subscribe(&s("x"), 1));
    assert!(rooms.subscribe(&s("x"), 2));
    assert_eq!(rooms.members(&s("x")).unwrap(), vec![1, 2]);
}

#[test]
fn recipients_exclude_sender() {
    let mut rooms = Rooms::new();
    rooms.create_room(s("r"));
    for id in [3, 1, 2] {
        rooms.subscribe(&s("r"), id);
    }
    assert_eq!(rooms.recipients(&s("r"), 1), vec![3, 2]);
    assert_eq!(rooms.recipients(&s("r"), 9), vec![3, 1, 2]);
    assert!(rooms.recipients(&s("none"), 1).is_empty());
}

#[test]
fn unsubscribe_and_leave_all() {
    let mut rooms = Rooms::new();
    rooms.create_room(s("a"));
    rooms.create_room(s("b"));
    rooms.subscribe(&s("a"), 1);
    rooms.subscribe(&s("a"), 2);
    rooms.subscribe(&s("b"), 1);
    rooms.unsubscribe(&s("a"), 1);
    rooms.unsubscribe(&s("zz"), 1);
    assert_eq!(rooms.members(&s("a")).unwrap(), vec![2]);
    let names = rooms.leave_all(1);
    assert_eq!(names, vec![s("a"), s("b")]);
    assert!(rooms.members(&s("b")).unwrap().is_empty());
    assert_eq!(rooms.members(&s("a")).unwrap(), vec![2]);
}

#[test]
fn message_subscribe() {
    let mut rooms = Rooms::new();
    match handle_ws_message(&mut rooms, 5, WsMessage::SUBSCRIBE { room: s("lobby") }) {
        WsAction::Reply(WsMessage::SUBSCRIBE_REJECTED { room }) => assert_eq!(room, "lobby"),
        other => panic!("unexpected {:?}", other),
    }
    rooms.create_room(s("lobby"));
    match handle_ws_message(&mut rooms, 5, WsMessage::SUBSCRIBE { room: s("lobby") }) {
        WsAction::Subscribed(room) => assert_eq!(room, "lobby"),
        other => panic!("unexpected {:?}", other),
    }
    assert_eq!(rooms.members(&s("lobby")).unwrap(), vec![5]);
}

#[test]
fn message_send_and_unsubscribe() {
    let mut rooms = Rooms::new();
    rooms.create_room(s("lobby"));
    rooms.subscribe(&s("lobby"), 1);
    rooms.subscribe(&s("lobby"), 2);
    match handle_ws_message(&mut rooms, 1, WsMessage::SEND { room: s("lobby"), text: s("hey") }) {
        WsAction::Broadcast(ids, WsMessage::NOTIFY { room, text }) => {
            assert_eq!(ids, vec![2]);
            assert_eq!(room, "lobby");
            assert_eq!(text, "hey");
        },
        other => panic!("unexpected {:?}", other),
    }
    match handle_ws_message(&mut rooms, 2, WsMessage::UNSUBSCRIBE { room: s("lobby") }) {
        WsAction::Unsubscribed(room) => assert_eq!(room, "lobby"),
        other => panic!("unexpected {:?}", other),
    }
    assert_eq!(rooms.members(&s("lobby")).unwrap(), vec![1]);
    match handle_ws_message(&mut rooms, 2, WsMessage::NOTIFY { room: s("lobby"), text: s("x") }) {
        WsAction::Ignored => {},
        other => panic!("unexpected {:?}", other),
    }
}

#[test]
fn websocket_close_leaves_rooms() {
    let mut rooms = Rooms::new();
    rooms.create_room(s("a"));
    rooms.subscribe(&s("a"), 4);
    let mut c = Connection::new(4);
    c.websocket = true;
    c.buffer = vec![0x88, 0x80, 0, 0, 0, 0];
    match handle_ws(&mut c, &mut rooms) {
        WsStep::Closed(frame, names) => {
            assert_eq!(frame, build_frame(true, 8, b""));
            assert_eq!(names, vec![s("a")]);
        },
        other => panic!("unexpected {:?}", other),
    }
    assert!(!c.websocket);
    assert!(rooms.members(&s("a")).unwrap().is_empty());
}

#[test]
fn websocket_data_is_handed_on() {
    let mut rooms = Rooms::new();
    let mut c = Connection::new(4);
    c.websocket = true;
    c.buffer = vec![0x81, 0x84, 0, 0, 0, 0, b'{', b'}', b' ', b' '];
    match handle_ws(&mut c, &mut rooms) {
        WsStep::Data(p) => assert_eq!(p, b"{}  ".to_vec()),
        other => panic!("unexpected {:?}", other),
    }
    assert!(c.buffer.is_empty());
    c.buffer = vec![0x81, 0x84, 0];
    match handle_ws(&mut c, &mut rooms) {
        WsStep::Nothing => {},
        other => panic!("unexpected {:?}", other),
    }
    assert_eq!(c.buffer.len(), 3);
}
