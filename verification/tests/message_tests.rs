use bully::message::{CodecError, Message, MessageType};

#[test]
fn test_encode_decode() {
    let msg = Message {
        message_type: MessageType::Election,
        content: String::from("this is an election message"),
    };
    let u8_vec = msg.to_u8_vec().unwrap();
    let decode_msg = Message::from_u8_vec(u8_vec).unwrap();
    assert_eq!(msg, decode_msg);
}

#[test]
fn encode_exact_bytes() {
    let msg = Message { message_type: MessageType::Answer, content: String::from("ab") };
    let bytes = msg.to_u8_vec().unwrap();
    assert_eq!(bytes, vec![1u8, 97, 98]);
}

#[test]
fn encode_empty_payload() {
    let msg = Message { message_type: MessageType::Coordinator, content: String::new() };
    let bytes = msg.to_u8_vec().unwrap();
    assert_eq!(bytes, vec![2u8]);
}

#[test]
fn decode_tag_values() {
    let e = Message::from_u8_vec(vec![0u8]).unwrap();
    assert_eq!(e.message_type, MessageType::Election);
    let a = Message::from_u8_vec(vec![1u8]).unwrap();
    assert_eq!(a.message_type, MessageType::Answer);
    let c = Message::from_u8_vec(vec![2u8]).unwrap();
    assert_eq!(c.message_type, MessageType::Coordinator);
}

#[test]
fn decode_unknown_tag_fails() {
    let r = Message::from_u8_vec(vec![7u8, 1, 2]);
    assert_eq!(r, Err(CodecError::UnknownMessageType(7)));
}

#[test]
fn decode_empty_body_fails() {
    let r = Message::from_u8_vec(Vec::new());
    assert_eq!(r, Err(CodecError::TruncatedMessage));
}

#[test]
fn round_trip_multibyte_utf8() {
    let msg = Message {
        message_type: MessageType::Coordinator,
        content: String::from("h\u{e9}llo \u{2603} \u{1f980}"),
    };
    let bytes = msg.to_u8_vec().unwrap();
    let back = Message::from_u8_vec(bytes).unwrap();
    assert_eq!(msg, back);
}

#[test]
fn lossy_decode_normalizes_and_is_idempotent() {
    // 0xff and 0xfe can begin no UTF-8 sequence: each is replaced.
    let decoded = Message::from_u8_vec(vec![2u8, 0xff, 0xfe]).unwrap();
    assert_eq!(decoded.message_type, MessageType::Coordinator);
    assert_eq!(decoded.content, "\u{fffd}\u{fffd}");
    // Re-encoding the decoded result reproduces the normalized bytes exactly.
    let normalized = decoded.to_u8_vec().unwrap();
    let again = Message::from_u8_vec(normalized.clone()).unwrap();
    assert_eq!(decoded, again);
    let normalized_again = again.to_u8_vec().unwrap();
    assert_eq!(normalized, normalized_again);
}
