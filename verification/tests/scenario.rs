use chat_relay::codec::encode;
use chat_relay::messages::{ChatMessage, Envelope};
use chat_relay::room::{ChatRoom, Delivery};
use chat_relay::session::{handle_incoming_message, Session, SessionState};

fn users(names: &[&str]) -> Envelope {
    Envelope::UsersList(names.iter().map(|n| n.to_string()).collect())
}

#[test]
fn end_to_end_scenario() {
    let mut room = ChatRoom::new();

    // Connect A -> id=1. A receives UsersList(["User #1"]) then
    // UsernameChange("User #1").
    let mut a = Session::new();
    let d = a.open(&mut room);
    assert_eq!(a.id, 1);
    assert_eq!(a.state, SessionState::Active);
    assert_eq!(
        d,
        vec![
            Delivery { to: 1, envelope: users(&["User #1"]) },
            Delivery { to: 1, envelope: Envelope::UsernameChange("User #1".to_string()) },
        ]
    );

    // Connect B -> id=2. A and B both receive the two-user list; B its ack.
    let mut b = Session::new();
    let d = b.open(&mut room);
    assert_eq!(b.id, 2);
    assert_eq!(
        d,
        vec![
            Delivery { to: 1, envelope: users(&["User #1", "User #2"]) },
            Delivery { to: 2, envelope: users(&["User #1", "User #2"]) },
            Delivery { to: 2, envelope: Envelope::UsernameChange("User #2".to_string()) },
        ]
    );

    // A sends a chat message: both A and B receive exactly that payload.
    let msg = ChatMessage {
        author: "User #1".to_string(),
        message: "hi".to_string(),
        created_at: "2024-01-01T00:00:00Z".to_string(),
    };
    let frame = encode(&Envelope::NewMessage(ChatMessage {
        author: msg.author.clone(),
        message: msg.message.clone(),
        created_at: msg.created_at.clone(),
    }));
    let d = a.on_frame(&mut room, frame.as_str());
    assert_eq!(d.len(), 2);
    assert_eq!(d[0].to, 1);
    assert_eq!(d[1].to, 2);
    for dv in &d {
        match &dv.envelope {
            Envelope::NewMessage(m) => {
                assert_eq!(m.author, msg.author);
                assert_eq!(m.message, msg.message);
                assert_eq!(m.created_at, msg.created_at);
            },
            _ => panic!("expected NewMessage"),
        }
    }

    // B renames to Bob: B gets the ack, then both get the updated list.
    let frame = encode(&Envelope::UsernameChange("Bob".to_string()));
    let d = b.on_frame(&mut room, frame.as_str());
    assert_eq!(
        d,
        vec![
            Delivery { to: 2, envelope: Envelope::UsernameChange("Bob".to_string()) },
            Delivery { to: 1, envelope: users(&["User #1", "Bob"]) },
            Delivery { to: 2, envelope: users(&["User #1", "Bob"]) },
        ]
    );

    // A disconnects: B receives UsersList(["Bob"]).
    a.on_stream_end();
    assert_eq!(a.state, SessionState::Closing);
    let d = a.finish(&mut room);
    assert_eq!(a.state, SessionState::Terminated);
    assert_eq!(d, vec![Delivery { to: 2, envelope: users(&["Bob"]) }]);
}

#[test]
fn malformed_frame_tolerance() {
    let mut room = ChatRoom::new();
    let mut a = Session::new();
    let _ = a.open(&mut room);
    let before = room.snapshot_names();
    let bad_frames = [
        "garbage",
        "{\"message_type\":\"Unknown\",\"message\":null,\"username\":null,\"users\":null}",
        "{\"message_type\":\"NewMessage\"",
        "\u{1}\u{2}",
    ];
    for frame in bad_frames {
        let d = a.on_frame(&mut room, frame);
        assert!(d.is_empty(), "no broadcast for malformed frame {frame:?}");
        assert_eq!(room.snapshot_names(), before, "registry unchanged");
        assert_eq!(a.state, SessionState::Active, "connection remains active");
    }
    // The session still works afterwards.
    let frame = encode(&Envelope::UsernameChange("Eve".to_string()));
    let d = a.on_frame(&mut room, frame.as_str());
    assert_eq!(d.len(), 2);
    assert_eq!(room.snapshot_names(), vec!["Eve".to_string()]);
}

#[test]
fn inbound_users_list_is_dropped() {
    let mut room = ChatRoom::new();
    let mut a = Session::new();
    let _ = a.open(&mut room);
    let frame = encode(&Envelope::UsersList(vec!["intruder".to_string()]));
    let d = handle_incoming_message(&mut room, a.id, frame.as_str());
    assert!(d.is_empty());
    assert_eq!(room.snapshot_names(), vec!["User #1".to_string()]);
}

#[test]
fn message_with_missing_payload_is_dropped() {
    // A frame whose tag says NewMessage but whose message field is null
    // does not decode, so the session drops it.
    let mut room = ChatRoom::new();
    let mut a = Session::new();
    let _ = a.open(&mut room);
    let frame = "{\"message_type\":\"NewMessage\",\"message\":null,\"username\":null,\"users\":null}";
    let d = a.on_frame(&mut room, frame);
    assert!(d.is_empty());
    assert_eq!(room.snapshot_names().len(), 1);
}

#[test]
fn leave_is_idempotent_at_the_registry() {
    let mut room = ChatRoom::new();
    let mut a = Session::new();
    let _ = a.open(&mut room);
    let mut b = Session::new();
    let _ = b.open(&mut room);
    b.on_stream_end();
    let d = b.finish(&mut room);
    assert_eq!(d, vec![Delivery { to: 1, envelope: users(&["User #1"]) }]);
    // A second removal of the same id (defensive) is a no-op.
    room.deregister(b.id);
    assert_eq!(room.snapshot_names(), vec!["User #1".to_string()]);
}
