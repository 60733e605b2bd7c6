use chat_relay::codec::{decode, encode};
use chat_relay::messages::{ChatMessage, Envelope};

#[test]
fn encode_new_message_frame() {
    let e = Envelope::NewMessage(ChatMessage {
        author: "User #1".to_string(),
        message: "hi".to_string(),
        created_at: "2024-01-01T00:00:00Z".to_string(),
    });
    assert_eq!(
        encode(&e),
        "{\"message_type\":\"NewMessage\",\"message\":{\"author\":\"User #1\",\"message\":\"hi\",\"created_at\":\"2024-01-01T00:00:00Z\"},\"username\":null,\"users\":null}"
    );
}

#[test]
fn encode_username_change_frame() {
    let e = Envelope::UsernameChange("Bob".to_string());
    assert_eq!(
        encode(&e),
        "{\"message_type\":\"UsernameChange\",\"message\":null,\"username\":\"Bob\",\"users\":null}"
    );
}

#[test]
fn encode_users_list_frame() {
    let e = Envelope::UsersList(vec!["User #1".to_string(), "Bob".to_string()]);
    assert_eq!(
        encode(&e),
        "{\"message_type\":\"UsersList\",\"message\":null,\"username\":null,\"users\":[\"User #1\",\"Bob\"]}"
    );
    let empty = Envelope::UsersList(vec![]);
    assert_eq!(
        encode(&empty),
        "{\"message_type\":\"UsersList\",\"message\":null,\"username\":null,\"users\":[]}"
    );
}

#[test]
fn decode_inverts_encode() {
    let frames = vec![
        Envelope::NewMessage(ChatMessage {
            author: "User #1".to_string(),
            message: "hi".to_string(),
            created_at: "T".to_string(),
        }),
        Envelope::UsernameChange("Bob".to_string()),
        Envelope::UsersList(vec![]),
        Envelope::UsersList(vec!["a".to_string()]),
        Envelope::UsersList(vec!["a".to_string(), "b".to_string(), "c".to_string()]),
    ];
    for e in frames {
        let text = encode(&e);
        let back = decode(text.as_str()).expect("canonical frame must decode");
        assert_eq!(back, e);
    }
}

#[test]
fn decode_handles_escaped_text() {
    let e = Envelope::NewMessage(ChatMessage {
        author: "a\"b\\c".to_string(),
        message: "line1\nline2\ttabbed\r\u{0}end".to_string(),
        created_at: "T".to_string(),
    });
    let text = encode(&e);
    assert_eq!(decode(text.as_str()), Some(e));
    // Escapes the encoder never emits are still accepted on input.
    let frame = "{\"message_type\":\"UsernameChange\",\"message\":null,\"username\":\"a\\/b\\u{0}\",\"users\":null}";
    // (the \u escape form is not part of the grammar: this frame is dropped)
    assert_eq!(decode(frame), None);
    let frame2 = "{\"message_type\":\"UsernameChange\",\"message\":null,\"username\":\"a\\/\\b\\f\",\"users\":null}";
    assert_eq!(
        decode(frame2),
        Some(Envelope::UsernameChange("a/\u{0008}\u{000C}".to_string()))
    );
}

#[test]
fn decode_rejects_malformed_frames() {
    let bad = [
        "",
        "not json at all",
        "{}",
        "{\"message_type\":\"Bogus\",\"message\":null,\"username\":null,\"users\":null}",
        "{\"message_type\":\"NewMessage\",\"message\":null,\"username\":null,\"users\":null}",
        "{\"message_type\":\"UsernameChange\",\"message\":null,\"username\":null,\"users\":null}",
        "{\"message_type\":\"UsernameChange\",\"message\":null,\"username\":\"unterminated",
        "{\"message_type\":\"UsersList\",\"message\":null,\"username\":null,\"users\":[\"a\",]}",
        "{\"message_type\":\"UsersList\",\"message\":null,\"username\":null,\"users\":[\"a\"]} trailing",
        "{\"message_type\":\"UsernameChange\",\"message_type\":\"UsernameChange\",\"username\":\"x\"}",
        "{\"message_type\":\"UsernameChange\",\"username\":\"x\",\"extra\":null}",
    ];
    for frame in bad {
        assert_eq!(decode(frame), None, "must reject: {frame}");
    }
}

#[test]
fn decode_accepts_reordered_keys_and_whitespace() {
    // serde-style output sorts keys alphabetically; key order, spacing and
    // absent fields are all insignificant on input.
    let alphabetical = "{\"message\":null,\"message_type\":\"UsernameChange\",\"username\":\"Bob\",\"users\":null}";
    assert_eq!(
        decode(alphabetical),
        Some(Envelope::UsernameChange("Bob".to_string()))
    );
    let spaced = "{ \"message_type\": \"UsernameChange\", \"message\": null, \"username\": \"Bob\", \"users\": null }";
    assert_eq!(decode(spaced), Some(Envelope::UsernameChange("Bob".to_string())));
    let sparse = "{\"username\":\"Bob\",\"message_type\":\"UsernameChange\"}";
    assert_eq!(decode(sparse), Some(Envelope::UsernameChange("Bob".to_string())));
    let alphabetical_msg = "{\"message\":{\"author\":\"a\",\"created_at\":\"t\",\"message\":\"hi\"},\"message_type\":\"NewMessage\",\"username\":null,\"users\":null}";
    assert_eq!(
        decode(alphabetical_msg),
        Some(Envelope::NewMessage(ChatMessage {
            author: "a".to_string(),
            message: "hi".to_string(),
            created_at: "t".to_string(),
        }))
    );
    let spaced_users = "{\"message_type\":\"UsersList\", \"users\": [ \"a\" , \"b\" ]}";
    assert_eq!(
        decode(spaced_users),
        Some(Envelope::UsersList(vec!["a".to_string(), "b".to_string()]))
    );
}

#[test]
fn codec_handles_unicode_escapes_and_control_characters() {
    // \uXXXX escapes decode to the code point; lone surrogates are dropped.
    let frame = "{\"message_type\":\"UsernameChange\",\"message\":null,\"username\":\"\\u0041\\u00e9\",\"users\":null}";
    assert_eq!(decode(frame), Some(Envelope::UsernameChange("A\u{e9}".to_string())));
    let surrogate = "{\"message_type\":\"UsernameChange\",\"message\":null,\"username\":\"\\ud800\",\"users\":null}";
    assert_eq!(decode(surrogate), None);
    // Control characters are emitted escaped (legal JSON) and read back.
    let e = Envelope::UsernameChange("a\u{1}b\u{1f}c".to_string());
    let text = encode(&e);
    assert_eq!(
        text,
        "{\"message_type\":\"UsernameChange\",\"message\":null,\"username\":\"a\\u0001b\\u001fc\",\"users\":null}"
    );
    assert_eq!(decode(text.as_str()), Some(e));
}

#[test]
fn decode_accepts_a_users_list_frame() {
    // Valid on the wire (the server emits it); the session later drops it
    // as an inbound direction, but the codec itself accepts it.
    let frame = "{\"message_type\":\"UsersList\",\"message\":null,\"username\":null,\"users\":[\"x\"]}";
    assert_eq!(decode(frame), Some(Envelope::UsersList(vec!["x".to_string()])));
}
