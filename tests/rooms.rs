use chat_rooms::connection::{chat_message, joined_message, left_message, Connection, Envelope};
use chat_rooms::directory::Directory;
use chat_rooms::registry::Registry;
use chat_rooms::room::{JoinError, RoomState};
use chat_rooms::DEFAULT_BACKLOG;

fn s(text: &str) -> String {
    text.to_string()
}

fn envelope(username: &str, channel: &str) -> Option<Envelope> {
    Some(Envelope { username: s(username), channel: s(channel) })
}

#[test]
fn lobby_conversation_and_teardown() {
    let mut reg = Registry::new(DEFAULT_BACKLOG);
    let mut alice = Connection::new();
    let mut bob = Connection::new();
    assert_eq!(alice.handshake(&mut reg, envelope("alice", "lobby")), None);
    assert_eq!(bob.handshake(&mut reg, envelope("bob", "lobby")), None);
    alice.inbound(&mut reg, &s("hi"));
    assert_eq!(bob.outbound(&mut reg), Some(s("bob joined the chat!")));
    assert_eq!(bob.outbound(&mut reg), Some(s("alice: hi")));
    assert_eq!(bob.outbound(&mut reg), None);
    bob.close(&mut reg);
    assert!(bob.is_closed());
    assert_eq!(reg.list_room_names(), vec![s("lobby")]);
    assert_eq!(reg.member_count(&s("lobby")), 1);
    assert_eq!(alice.outbound(&mut reg), Some(s("alice joined the chat!")));
    assert_eq!(alice.outbound(&mut reg), Some(s("bob joined the chat!")));
    assert_eq!(alice.outbound(&mut reg), Some(s("alice: hi")));
    assert_eq!(alice.outbound(&mut reg), Some(s("bob left the chat!")));
    alice.close(&mut reg);
    assert!(reg.list_room_names().is_empty());
}

#[test]
fn same_name_twice_one_wins() {
    let mut reg = Registry::new(DEFAULT_BACKLOG);
    let mut first = Connection::new();
    let mut second = Connection::new();
    let a = first.handshake(&mut reg, envelope("carol", "r"));
    let b = second.handshake(&mut reg, envelope("carol", "r"));
    assert_eq!(a, None);
    assert_eq!(b, Some(s("Username already taken.")));
    assert!(!first.is_closed());
    assert!(second.is_closed());
    assert_eq!(reg.member_count(&s("r")), 1);
    assert_eq!(reg.rooms[0].room.members[0].username, s("carol"));
}

#[test]
fn taken_name_has_no_side_effects() {
    let mut reg = Registry::new(DEFAULT_BACKLOG);
    let mut dave = Connection::new();
    dave.handshake(&mut reg, envelope("dave", "x"));
    let mut other = Connection::new();
    other.handshake(&mut reg, envelope("dave", "x"));
    // only dave's own arrival is waiting for him: the refused join announced nothing
    assert_eq!(dave.outbound(&mut reg), Some(s("dave joined the chat!")));
    assert_eq!(dave.outbound(&mut reg), None);
    // closing the refused connection does not touch the room
    other.close(&mut reg);
    assert_eq!(reg.member_count(&s("x")), 1);
}

#[test]
fn unreadable_join_request_closes() {
    let mut reg = Registry::new(DEFAULT_BACKLOG);
    let mut c = Connection::new();
    assert_eq!(c.handshake(&mut reg, None), Some(s("Failed to connect to room!")));
    assert!(c.is_closed());
    assert!(reg.list_room_names().is_empty());
}

#[test]
fn close_before_join_changes_nothing() {
    let mut reg = Registry::new(DEFAULT_BACKLOG);
    let mut c = Connection::new();
    c.close(&mut reg);
    assert!(c.is_closed());
    assert!(reg.list_room_names().is_empty());
    // a closed connection cannot join any more
    assert_eq!(c.handshake(&mut reg, envelope("eve", "y")), None);
    assert!(reg.list_room_names().is_empty());
}

#[test]
fn second_handshake_is_ignored() {
    let mut reg = Registry::new(DEFAULT_BACKLOG);
    let mut c = Connection::new();
    c.handshake(&mut reg, envelope("eve", "y"));
    assert_eq!(c.handshake(&mut reg, envelope("eve2", "z")), None);
    assert_eq!(reg.list_room_names(), vec![s("y")]);
    assert_eq!(reg.member_count(&s("y")), 1);
}

#[test]
fn rooms_are_isolated() {
    let mut reg = Registry::new(DEFAULT_BACKLOG);
    let mut x = Connection::new();
    let mut y = Connection::new();
    x.handshake(&mut reg, envelope("xena", "X"));
    y.handshake(&mut reg, envelope("yuri", "Y"));
    assert_eq!(y.outbound(&mut reg), Some(s("yuri joined the chat!")));
    x.inbound(&mut reg, &s("only for X"));
    assert_eq!(y.outbound(&mut reg), None);
    assert_eq!(x.outbound(&mut reg), Some(s("xena joined the chat!")));
    assert_eq!(x.outbound(&mut reg), Some(s("xena: only for X")));
}

#[test]
fn messages_from_one_sender_arrive_in_order() {
    let mut reg = Registry::new(DEFAULT_BACKLOG);
    let mut a = Connection::new();
    let mut b = Connection::new();
    a.handshake(&mut reg, envelope("a", "room"));
    b.handshake(&mut reg, envelope("b", "room"));
    assert_eq!(b.outbound(&mut reg), Some(s("b joined the chat!")));
    for k in 0..5 {
        a.inbound(&mut reg, &format!("m{}", k));
    }
    for k in 0..5 {
        assert_eq!(b.outbound(&mut reg), Some(format!("a: m{}", k)));
    }
    assert_eq!(b.outbound(&mut reg), None);
}

#[test]
fn full_backlog_drops_oldest() {
    let mut reg = Registry::new(2);
    let sub = reg.join(s("r"), s("u")).unwrap();
    assert_eq!(sub.room, s("r"));
    assert_eq!(sub.username, s("u"));
    reg.broadcast(&s("r"), &s("one"));
    reg.broadcast(&s("r"), &s("two"));
    reg.broadcast(&s("r"), &s("three"));
    assert_eq!(reg.take_next(&s("r"), &s("u")), Some(s("two")));
    assert_eq!(reg.take_next(&s("r"), &s("u")), Some(s("three")));
    assert_eq!(reg.take_next(&s("r"), &s("u")), None);
}

#[test]
fn registry_join_and_leave() {
    let mut reg = Registry::new(DEFAULT_BACKLOG);
    assert!(reg.join(s("r"), s("a")).is_ok());
    assert!(reg.join(s("r"), s("b")).is_ok());
    assert_eq!(reg.join(s("r"), s("a")).err(), Some(JoinError::UsernameTaken));
    assert_eq!(reg.member_count(&s("r")), 2);
    // leaving twice is the same as leaving once
    reg.leave(&s("r"), &s("a"));
    reg.leave(&s("r"), &s("a"));
    assert_eq!(reg.member_count(&s("r")), 1);
    // the same name may be used in another room
    assert!(reg.join(s("q"), s("b")).is_ok());
    reg.leave(&s("r"), &s("b"));
    assert_eq!(reg.list_room_names(), vec![s("q")]);
    assert_eq!(reg.member_count(&s("r")), 0);
    // a name freed by leaving can join again
    assert!(reg.join(s("r"), s("a")).is_ok());
}

#[test]
fn get_or_create_and_remove_if_empty() {
    let mut reg = Registry::new(DEFAULT_BACKLOG);
    assert_eq!(reg.get_or_create(s("a")), 0);
    assert_eq!(reg.get_or_create(s("b")), 1);
    assert_eq!(reg.get_or_create(s("a")), 0);
    assert_eq!(reg.find_room(&s("b")), Some(1));
    assert_eq!(reg.find_room(&s("c")), None);
    reg.join(s("b"), s("u")).unwrap();
    reg.remove_if_empty(&s("b"));
    reg.remove_if_empty(&s("a"));
    reg.remove_if_empty(&s("missing"));
    assert_eq!(reg.list_room_names(), vec![s("b")]);
}

#[test]
fn room_state_operations() {
    let mut room = RoomState::new(3);
    assert_eq!(room.join(s("a")), Ok(()));
    assert_eq!(room.join(s("a")), Err(JoinError::UsernameTaken));
    assert_eq!(room.join(s("b")), Ok(()));
    assert!(room.contains(&s("b")));
    assert_eq!(room.find(&s("b")), Some(1));
    room.broadcast(&s("hello"));
    assert_eq!(room.take_next(&s("a")), Some(s("hello")));
    assert_eq!(room.take_next(&s("a")), None);
    assert_eq!(room.take_next(&s("zed")), None);
    room.leave(&s("a"));
    room.leave(&s("nobody"));
    assert_eq!(room.member_count(), 1);
    assert!(!room.contains(&s("a")));
    assert_eq!(room.take_next(&s("b")), Some(s("hello")));
}

#[test]
fn message_texts() {
    assert_eq!(joined_message(&s("ann")), s("ann joined the chat!"));
    assert_eq!(chat_message(&s("ann"), &s("yo")), s("ann: yo"));
    assert_eq!(left_message(&s("ann")), s("ann left the chat!"));
}

#[test]
fn directory_when_empty() {
    let reg = Registry::new(DEFAULT_BACKLOG);
    let d = reg.directory();
    assert_eq!(d.status, s("No rooms found yet!"));
    assert!(d.rooms.is_empty());
    assert_eq!(reg.directory_json(), s("{\"rooms\":[],\"status\":\"No rooms found yet!\"}"));
}

#[test]
fn directory_lists_rooms() {
    let mut reg = Registry::new(DEFAULT_BACKLOG);
    reg.join(s("lobby"), s("a")).unwrap();
    reg.join(s("games"), s("b")).unwrap();
    let d = reg.directory();
    assert_eq!(d.status, s("Success!"));
    assert_eq!(d.rooms, vec![s("lobby"), s("games")]);
    assert_eq!(reg.directory_json(), s("{\"rooms\":[\"lobby\",\"games\"],\"status\":\"Success!\"}"));
}

#[test]
fn directory_json_escapes_names() {
    let d = Directory { status: s("Success!"), rooms: vec![s("a\"b"), s("back\\slash\n")] };
    assert_eq!(d.to_json(), s("{\"rooms\":[\"a\\\"b\",\"back\\\\slash\\n\"],\"status\":\"Success!\"}"));
}
