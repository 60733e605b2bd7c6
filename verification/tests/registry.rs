use chat_relay::messages::{ChatMessage, Envelope};
use chat_relay::room::{ChatRoom, Delivery};

fn names(room: &ChatRoom) -> Vec<String> {
    room.snapshot_names()
}

#[test]
fn register_assigns_default_names() {
    let mut room = ChatRoom::new();
    let a = room.register();
    let b = room.register();
    assert_eq!(a, 1);
    assert_eq!(b, 2);
    assert_eq!(names(&room), vec!["User #1".to_string(), "User #2".to_string()]);
}

#[test]
fn default_names_with_multi_digit_ids() {
    let mut room = ChatRoom::new();
    let mut last: usize = 0;
    for _ in 0..12 {
        last = room.register();
    }
    assert_eq!(last, 12);
    let list = names(&room);
    assert_eq!(list[9], "User #10");
    assert_eq!(list[11], "User #12");
}

#[test]
fn id_monotonicity_and_non_reuse() {
    let mut room = ChatRoom::new();
    let mut seen: Vec<usize> = Vec::new();
    let a = room.register();
    seen.push(a);
    let b = room.register();
    seen.push(b);
    room.deregister(a);
    let c = room.register();
    seen.push(c);
    room.deregister(b);
    room.deregister(c);
    let d = room.register();
    seen.push(d);
    for i in 1..seen.len() {
        for j in 0..i {
            assert!(seen[i] > seen[j], "ids must strictly increase");
        }
    }
}

#[test]
fn membership_consistency() {
    let mut room = ChatRoom::new();
    let mut registers = 0usize;
    let mut removals = 0usize;
    let a = room.register();
    registers += 1;
    let b = room.register();
    registers += 1;
    let _c = room.register();
    registers += 1;
    room.deregister(a);
    removals += 1;
    room.deregister(b);
    removals += 1;
    assert_eq!(room.snapshot_names().len(), registers - removals);
    assert_eq!(room.count(), registers - removals);
    let _d = room.register();
    registers += 1;
    assert_eq!(room.snapshot_names().len(), registers - removals);
    assert_eq!(room.count(), registers - removals);
}

#[test]
fn deregister_is_idempotent_and_tolerates_absent_ids() {
    let mut room = ChatRoom::new();
    let a = room.register();
    room.deregister(a);
    room.deregister(a);
    room.deregister(999);
    assert_eq!(room.snapshot_names().len(), 0);
    let b = room.register();
    assert!(b > a);
}

#[test]
fn broadcast_completeness() {
    let mut room = ChatRoom::new();
    let a = room.register();
    let b = room.register();
    let c = room.register();
    let msg = ChatMessage {
        author: "User #1".to_string(),
        message: "hello".to_string(),
        created_at: "2024-01-01T00:00:00Z".to_string(),
    };
    let deliveries = room.relay_message(msg);
    let targets: Vec<usize> = deliveries.iter().map(|d| d.to).collect();
    assert_eq!(targets, vec![a, b, c]);
    for d in &deliveries {
        match &d.envelope {
            Envelope::NewMessage(m) => {
                assert_eq!(m.author, "User #1");
                assert_eq!(m.message, "hello");
                assert_eq!(m.created_at, "2024-01-01T00:00:00Z");
            },
            _ => panic!("expected a NewMessage delivery"),
        }
    }
    // A connection registered after the fan-out was computed is not in it.
    let d_late = room.register();
    assert!(!targets.contains(&d_late));
}

#[test]
fn failed_delivery_does_not_shrink_the_registry() {
    // The fan-out never removes a connection: a broken sink is cleaned up
    // only when that connection's own session ends. The registry is not
    // even mutable during a broadcast; dropping a delivery on the floor
    // (as the surrounding process does on a write failure) leaves the
    // roster intact.
    let mut room = ChatRoom::new();
    let _a = room.register();
    let _b = room.register();
    let deliveries = room.relay_message(ChatMessage {
        author: "x".to_string(),
        message: "y".to_string(),
        created_at: "t".to_string(),
    });
    drop(deliveries); // every write failed; nothing is retried
    assert_eq!(room.snapshot_names().len(), 2);
}

#[test]
fn rename_visibility_ordering() {
    let mut room = ChatRoom::new();
    let a = room.register();
    let b = room.register();
    let old_name = "User #2".to_string();
    let deliveries = room.apply_rename(b, "Bob".to_string());
    // The acknowledgment comes first, addressed to the renamed connection.
    assert_eq!(
        deliveries[0],
        Delivery { to: b, envelope: Envelope::UsernameChange("Bob".to_string()) }
    );
    // Then everyone receives the updated list: the new name, not the old.
    assert_eq!(deliveries.len(), 3);
    for d in &deliveries[1..] {
        match &d.envelope {
            Envelope::UsersList(users) => {
                assert!(users.contains(&"Bob".to_string()));
                assert!(!users.contains(&old_name));
            },
            _ => panic!("expected a UsersList delivery"),
        }
    }
    assert_eq!(deliveries[1].to, a);
    assert_eq!(deliveries[2].to, b);
}

#[test]
fn send_to_reaches_exactly_one_connection() {
    let mut room = ChatRoom::new();
    let a = room.register();
    let _b = room.register();
    let env = Envelope::UsernameChange("User #1".to_string());
    let d = room.send_to(a, &env).expect("registered id must be reachable");
    assert_eq!(d.to, a);
    assert_eq!(d.envelope, env);
    assert!(room.send_to(999, &env).is_none());
}
