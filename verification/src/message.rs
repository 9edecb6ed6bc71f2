//! The message codec: the three protocol message kinds and their serialized
//! body, one tag byte followed by the payload's UTF-8 bytes.

use vstd::prelude::*;
use vstd::string::StrSliceExecFns;
use vstd::utf8::{decode_utf8, encode_utf8, encode_utf8_decode_utf8, encode_utf8_valid_utf8,
    valid_utf8};

verus! {

/// The three kinds of traffic the election protocol exchanges.
#[derive(Copy, Clone, Debug, PartialEq, Eq, Structural)]
pub enum MessageType {
    Election,
    Answer,
    Coordinator,
}

/// A protocol message: a kind and a free-form UTF-8 payload. The codec does
/// not interpret the payload beyond UTF-8 decoding.
#[derive(Debug)]
pub struct Message {
    pub message_type: MessageType,
    pub content: String,
}

/// Everything that can go wrong while decoding, framing or reading a message.
#[derive(Copy, Clone, Debug, PartialEq, Eq, Structural)]
pub enum CodecError {
    /// A leading tag byte that stands for no message kind.
    UnknownMessageType(u8),
    /// Zero bytes were available where a message was expected.
    StreamClosed,
    /// The stream ended before the announced number of bytes arrived, or a
    /// framed body was too short to hold a tag byte.
    TruncatedMessage,
    /// The body's length cannot be represented in the 64-bit length prefix.
    EncodingError,
}

/// The wire tag that stands for each message kind.
pub open spec fn spec_tag(t: MessageType) -> u8 {
    match t {
        MessageType::Election => 0,
        MessageType::Answer => 1,
        MessageType::Coordinator => 2,
    }
}

/// The message kind a tag byte stands for, if any.
pub open spec fn spec_kind_of_tag(b: u8) -> Option<MessageType> {
    if b == 0 {
        Some(MessageType::Election)
    } else if b == 1 {
        Some(MessageType::Answer)
    } else if b == 2 {
        Some(MessageType::Coordinator)
    } else {
        None
    }
}

/// The serialized body of a message: its tag byte, then its payload's bytes.
pub open spec fn spec_body(m: Message) -> Seq<u8> {
    seq![spec_tag(m.message_type)] + encode_utf8(m.content@)
}

/// The character sequence that lossy UTF-8 decoding yields for the given
/// bytes: invalid sequences are replaced, never rejected.
pub uninterp spec fn utf8_lossy_of(bytes: Seq<u8>) -> Seq<char>;

/// Relies on String::from_utf8_lossy: the result depends on the bytes alone,
/// and bytes that already are valid UTF-8 decode to exactly the text they
/// encode.
#[verifier::external_body]
fn utf8_lossy(bytes: &Vec<u8>) -> (r: String)
    ensures
        r@ == utf8_lossy_of(bytes@),
        valid_utf8(bytes@) ==> r@ == decode_utf8(bytes@),
{
    String::from_utf8_lossy(bytes.as_slice()).into_owned()
}

/// The tag byte of a message kind.
pub fn tag_of(t: MessageType) -> (r: u8)
    ensures
        r == spec_tag(t),
{
    match t {
        MessageType::Election => 0,
        MessageType::Answer => 1,
        MessageType::Coordinator => 2,
    }
}

impl Message {
    /// Serializes the message to a byte vector: one tag byte, then the
    /// payload's UTF-8 bytes. The result is always well defined; the codec
    /// surfaces a length that the framing cannot represent only when the
    /// frame is written (see `send_message`).
    pub fn to_u8_vec(&self) -> (r: Result<Vec<u8>, CodecError>)
        ensures
            r is Ok,
            r->Ok_0@ == spec_body(*self),
    {
        let mut out: Vec<u8> = Vec::new();
        out.push(tag_of(self.message_type));
        let mut payload = self.content.as_str().as_bytes_vec();
        out.append(&mut payload);
        proof {
            assert(out@ =~= spec_body(*self));
        }
        Ok(out)
    }

    /// Deserializes a byte vector: the leading byte names the message kind,
    /// the remaining bytes are decoded as UTF-8 with lossy substitution.
    ///
    /// The last clause is the round-trip law: a body produced by
    /// `to_u8_vec` decodes back to the message it came from, since a
    /// constructible payload is always valid UTF-8.
    pub fn from_u8_vec(inp: Vec<u8>) -> (r: Result<Message, CodecError>)
        ensures
            inp@.len() == 0 ==> r == Err::<Message, CodecError>(CodecError::TruncatedMessage),
            inp@.len() > 0 && spec_kind_of_tag(inp@[0]) is None ==> r == Err::<
                Message,
                CodecError,
            >(CodecError::UnknownMessageType(inp@[0])),
            inp@.len() > 0 && spec_kind_of_tag(inp@[0]) is Some ==> {
                &&& r is Ok
                &&& r->Ok_0.message_type == spec_kind_of_tag(inp@[0])->Some_0
                &&& r->Ok_0.content@ == utf8_lossy_of(inp@.skip(1))
                &&& valid_utf8(inp@.skip(1)) ==> r->Ok_0.content@ == decode_utf8(inp@.skip(1))
            },
            forall|m: Message|
                inp@ == spec_body(m) ==> {
                    &&& r is Ok
                    &&& r->Ok_0.message_type == m.message_type
                    &&& r->Ok_0.content@ == m.content@
                },
    {
        if inp.len() == 0 {
            return Err(CodecError::TruncatedMessage);
        }
        let tag = inp[0];
        let message_type = if tag == 0 {
            MessageType::Election
        } else if tag == 1 {
            MessageType::Answer
        } else if tag == 2 {
            MessageType::Coordinator
        } else {
            return Err(CodecError::UnknownMessageType(tag));
        };
        let mut payload: Vec<u8> = Vec::new();
        let mut i: usize = 1;
        while i < inp.len()
            invariant
                1 <= i <= inp@.len(),
                payload@ =~= inp@.subrange(1, i as int),
            decreases inp@.len() - i,
        {
            payload.push(inp[i]);
            i = i + 1;
        }
        proof {
            assert(payload@ =~= inp@.skip(1));
        }
        let content = utf8_lossy(&payload);
        let result = Message { message_type, content };
        proof {
            assert forall|m: Message| inp@ == spec_body(m) implies {
                &&& result.message_type == m.message_type
                &&& result.content@ == m.content@
            } by {
                assert(inp@[0] == spec_tag(m.message_type));
                assert(inp@.skip(1) =~= encode_utf8(m.content@));
                encode_utf8_valid_utf8(m.content@);
                encode_utf8_decode_utf8(m.content@);
            }
        }
        Ok(result)
    }
}

impl PartialEq for Message {
    fn eq(&self, other: &Self) -> bool {
        self.message_type == other.message_type && self.content == other.content
    }
}

impl vstd::std_specs::cmp::PartialEqSpecImpl for Message {
    open spec fn obeys_eq_spec() -> bool {
        true
    }

    open spec fn eq_spec(&self, other: &Self) -> bool {
        self.message_type == other.message_type && self.content@ == other.content@
    }
}

} // verus!

