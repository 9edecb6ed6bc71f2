use bully::message::{CodecError, Message, MessageType};
use bully::stream::ByteStream;

#[test]
fn test_send_receive_msg() {
    let msg = Message {
        message_type: MessageType::Election,
        content: String::from("this is an election message"),
    };
    let mut tunnel = ByteStream::new();
    Message::send_message(&msg, &mut tunnel).unwrap();
    let rcv_msg = Message::receive_message(&mut tunnel).unwrap();
    assert_eq!(msg, rcv_msg);
}

#[test]
fn frame_bytes_are_length_then_body() {
    let msg = Message { message_type: MessageType::Election, content: String::from("hi") };
    let mut stream = ByteStream::new();
    let written = Message::send_message(&msg, &mut stream).unwrap();
    assert_eq!(written, 11);
    let frame = stream.read_upto(11);
    assert_eq!(frame, vec![0u8, 0, 0, 0, 0, 0, 0, 3, 0, 104, 105]);
}

#[test]
fn framing_round_trip_empty_payload() {
    let msg = Message { message_type: MessageType::Answer, content: String::new() };
    let mut stream = ByteStream::new();
    Message::send_message(&msg, &mut stream).unwrap();
    let back = Message::receive_message(&mut stream).unwrap();
    assert_eq!(msg, back);
    assert_eq!(stream.remaining_len(), 0);
}

#[test]
fn framing_round_trip_multibyte_payload() {
    let msg = Message {
        message_type: MessageType::Coordinator,
        content: String::from("sn\u{f6}\u{2603}man \u{1f980}"),
    };
    let mut stream = ByteStream::new();
    Message::send_message(&msg, &mut stream).unwrap();
    let back = Message::receive_message(&mut stream).unwrap();
    assert_eq!(msg, back);
}

#[test]
fn two_frames_in_sequence() {
    let first = Message { message_type: MessageType::Election, content: String::from("1") };
    let second = Message { message_type: MessageType::Answer, content: String::from("2") };
    let mut stream = ByteStream::new();
    Message::send_message(&first, &mut stream).unwrap();
    Message::send_message(&second, &mut stream).unwrap();
    assert_eq!(Message::receive_message(&mut stream).unwrap(), first);
    assert_eq!(Message::receive_message(&mut stream).unwrap(), second);
}

#[test]
fn receive_on_empty_stream_is_closed() {
    let mut stream = ByteStream::new();
    let r = Message::receive_message(&mut stream);
    assert_eq!(r, Err(CodecError::StreamClosed));
}

#[test]
fn receive_on_short_header_is_truncated() {
    let mut stream = ByteStream::from_bytes(vec![0u8, 0, 0]);
    let r = Message::receive_message(&mut stream);
    assert_eq!(r, Err(CodecError::TruncatedMessage));
}

#[test]
fn truncated_body_fails_and_spares_other_peers() {
    // A length prefix of 5, but only 3 body bytes before the stream closes.
    let mut broken = ByteStream::from_bytes(vec![0u8, 0, 0, 0, 0, 0, 0, 5, 0, 104, 105]);
    let r = Message::receive_message(&mut broken);
    assert_eq!(r, Err(CodecError::TruncatedMessage));
    // The failure is local to that peer's connection: a healthy stream is
    // read afterwards as if nothing happened.
    let msg = Message { message_type: MessageType::Election, content: String::from("ok") };
    let mut healthy = ByteStream::new();
    Message::send_message(&msg, &mut healthy).unwrap();
    assert_eq!(Message::receive_message(&mut healthy).unwrap(), msg);
}

#[test]
fn zero_length_frame_is_truncated_message() {
    let mut stream = ByteStream::from_bytes(vec![0u8, 0, 0, 0, 0, 0, 0, 0]);
    let r = Message::receive_message(&mut stream);
    assert_eq!(r, Err(CodecError::TruncatedMessage));
}

#[test]
fn unknown_tag_inside_frame() {
    let mut stream = ByteStream::from_bytes(vec![0u8, 0, 0, 0, 0, 0, 0, 1, 9]);
    let r = Message::receive_message(&mut stream);
    assert_eq!(r, Err(CodecError::UnknownMessageType(9)));
}
