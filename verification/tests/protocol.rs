use chat_core::ClientStep;
use chat_core::InputAction;
use chat_core::MESSAGE_SIZE;
use chat_core::ReadEvent;
use chat_core::ReadStep;
use chat_core::encode;
use chat_core::frame_for;
use chat_core::generate_identity;
use chat_core::handle_read_event;
use chat_core::handle_server_frame;
use chat_core::input_action;
use chat_core::Connection;

#[test]
fn closed_read_stops_thread() {
    let id = String::from("abc");
    assert!(matches!(handle_read_event(ReadEvent::Closed, &id), ReadStep::Stop));
}

#[test]
fn failed_read_stops_thread() {
    let id = String::from("abc");
    assert!(matches!(handle_read_event(ReadEvent::Failed, &id), ReadStep::Stop));
}

#[test]
fn would_block_continues() {
    let id = String::from("abc");
    assert!(matches!(handle_read_event(ReadEvent::WouldBlock, &id), ReadStep::Continue));
}

#[test]
fn good_frame_is_delivered_with_identity() {
    let id = String::from("abc123");
    let frame = encode("hello").expect("fits");
    match handle_read_event(ReadEvent::Data(frame), &id) {
        ReadStep::Deliver(m) => {
            assert_eq!(m.content, "hello");
            assert_eq!(m.origin, "abc123");
        }
        _ => panic!("expected delivery"),
    }
}

#[test]
fn undecodable_frame_stops_thread() {
    let id = String::from("abc123");
    let mut frame = vec![0u8; MESSAGE_SIZE];
    frame[0] = 0xFF;
    assert!(matches!(handle_read_event(ReadEvent::Data(frame), &id), ReadStep::Stop));
}

#[test]
fn client_displays_decoded_frame() {
    let frame = encode("abc: 'hi'").expect("fits");
    match handle_server_frame(frame.as_slice()) {
        ClientStep::Display(s) => assert_eq!(s, "abc: 'hi'"),
        ClientStep::Disconnect => panic!("expected display"),
    }
}

#[test]
fn client_disconnects_on_bad_frame() {
    let mut frame = vec![0u8; MESSAGE_SIZE];
    frame[0] = 0x80;
    assert!(matches!(handle_server_frame(frame.as_slice()), ClientStep::Disconnect));
}

#[test]
fn exit_token_quits() {
    assert!(matches!(input_action(String::from("exit")), InputAction::Quit));
}

#[test]
fn other_lines_are_sent() {
    match input_action(String::from("hello there")) {
        InputAction::Send(s) => assert_eq!(s, "hello there"),
        InputAction::Quit => panic!("expected send"),
    }
}

#[test]
fn end_to_end_broadcast_path() {
    // Two clients connected from distinct ports; A sends "hello".
    let id_a = generate_identity(40001, 10);
    let id_b = generate_identity(40002, 10);
    let conn_a = Connection { identity: id_a.clone(), slot: 0 };
    let conn_b = Connection { identity: id_b.clone(), slot: 1 };

    // The server's receive thread reads A's frame and delivers it.
    let wire_frame = encode("hello").expect("fits");
    let message = match handle_read_event(ReadEvent::Data(wire_frame), &id_a) {
        ReadStep::Deliver(m) => m,
        _ => panic!("expected delivery"),
    };

    // The dispatcher owes a frame to B and none to A.
    assert!(frame_for(&conn_a, &message).is_none());
    let frame_b = frame_for(&conn_b, &message).expect("owed a frame");

    // B's console shows the message under A's identity.
    match handle_server_frame(frame_b.as_slice()) {
        ClientStep::Display(s) => assert_eq!(s, format!("{}: 'hello'", id_a)),
        ClientStep::Disconnect => panic!("expected display"),
    }
}
