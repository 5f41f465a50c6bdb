use chat_core::Connection;
use chat_core::MESSAGE_SIZE;
use chat_core::Message;
use chat_core::Registry;
use chat_core::decode;
use chat_core::frame_for;
use chat_core::render_message;

fn conn(identity: &str, slot: usize) -> Connection {
    Connection { identity: String::from(identity), slot }
}

fn msg(origin: &str, content: &str) -> Message {
    Message { content: String::from(content), origin: String::from(origin) }
}

#[test]
fn registry_add_and_lookup() {
    let mut reg = Registry::new();
    assert_eq!(reg.len(), 0);
    reg.add(conn("I", 0));
    reg.add(conn("J", 1));
    assert_eq!(reg.len(), 2);
    assert!(reg.contains_identity(&String::from("I")));
    assert!(reg.contains_identity(&String::from("J")));
    assert!(!reg.contains_identity(&String::from("K")));
    assert_eq!(reg.get(0).identity, "I");
    assert_eq!(reg.get(1).slot, 1);
}

#[test]
fn render_message_format() {
    assert_eq!(render_message("abc123", "hello"), "abc123: 'hello'");
}

#[test]
fn broadcast_never_writes_to_origin() {
    let m = msg("I", "hello");
    assert!(frame_for(&conn("I", 0), &m).is_none());
    assert!(frame_for(&conn("J", 1), &m).is_some());
    assert!(frame_for(&conn("K", 2), &m).is_some());
}

#[test]
fn broadcast_frame_carries_rendered_message() {
    let m = msg("I", "hello");
    let frame = frame_for(&conn("J", 1), &m).expect("owed a frame");
    assert_eq!(frame.len(), MESSAGE_SIZE);
    assert_eq!(decode(frame.as_slice()).expect("valid"), "I: 'hello'");
}

#[test]
fn broadcast_skips_over_length_message() {
    let m = msg("I", &"x".repeat(MESSAGE_SIZE));
    assert!(frame_for(&conn("J", 1), &m).is_none());
    assert!(frame_for(&conn("I", 0), &m).is_none());
}

#[test]
fn failed_write_prunes_connection() {
    let mut reg = Registry::new();
    reg.add(conn("I", 0));
    reg.add(conn("J", 1));
    reg.add(conn("K", 2));
    // The write to J failed; I is the origin and was never written to.
    let after = reg.broadcast_except(&String::from("I"), &vec![false, true, false]);
    assert_eq!(after.len(), 2);
    assert_eq!(after.get(0).identity, "I");
    assert_eq!(after.get(1).identity, "K");
    assert!(!after.contains_identity(&String::from("J")));
}

#[test]
fn origin_is_retained_even_on_failure_flag() {
    let mut reg = Registry::new();
    reg.add(conn("I", 0));
    reg.add(conn("J", 1));
    let after = reg.broadcast_except(&String::from("I"), &vec![true, false]);
    assert_eq!(after.len(), 2);
    assert!(after.contains_identity(&String::from("I")));
}

#[test]
fn successful_broadcast_keeps_everyone() {
    let mut reg = Registry::new();
    reg.add(conn("I", 0));
    reg.add(conn("J", 1));
    reg.add(conn("K", 2));
    let after = reg.broadcast_except(&String::from("I"), &vec![false, false, false]);
    assert_eq!(after.len(), 3);
    assert_eq!(after.get(0).identity, "I");
    assert_eq!(after.get(1).identity, "J");
    assert_eq!(after.get(2).identity, "K");
}
