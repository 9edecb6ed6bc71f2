//! An in-memory byte stream and the length-prefixed framing that carries one
//! message per frame over it: an 8-byte big-endian length, then the body.
//!
//! The transport collaborator that moves these bytes over a real connection
//! stands outside the library; it hands bytes in and takes bytes out of a
//! `ByteStream`.

use vstd::prelude::*;
use vstd::utf8::{decode_utf8, valid_utf8};
use crate::message::{spec_body, spec_kind_of_tag, utf8_lossy_of, CodecError, Message};
use crate::wire::{spec_u64_from_be_bytes, spec_u64_to_be_bytes, lemma_u64_be_bytes_round_trip,
    u64_from_be_bytes, u64_to_be_bytes};

verus! {

/// A byte stream read from the front and written at the back. The bytes
/// before `pos` have been consumed; the stream is exhausted (reads as closed)
/// once `pos` reaches the end of `data`.
pub struct ByteStream {
    data: Vec<u8>,
    pos: usize,
}

/// The whole frame of a message: the big-endian length of the body, then the
/// body itself.
pub open spec fn spec_frame(m: Message) -> Seq<u8> {
    spec_u64_to_be_bytes(spec_body(m).len() as u64) + spec_body(m)
}

impl ByteStream {
    /// All bytes ever written to the stream, consumed or not.
    pub closed spec fn buffered(&self) -> Seq<u8> {
        self.data@
    }

    /// How many of the buffered bytes have been read already.
    pub closed spec fn consumed(&self) -> int {
        self.pos as int
    }

    pub open spec fn wf(&self) -> bool {
        0 <= self.consumed() <= self.buffered().len() <= usize::MAX
    }

    /// The bytes still available to read.
    pub open spec fn remaining(&self) -> Seq<u8> {
        self.buffered().skip(self.consumed())
    }

    /// An empty stream.
    pub fn new() -> (r: ByteStream)
        ensures
            r.wf(),
            r.buffered() == Seq::<u8>::empty(),
            r.consumed() == 0,
    {
        let data: Vec<u8> = Vec::new();
        ByteStream { data, pos: 0 }
    }

    /// A stream whose unread bytes are exactly `data`.
    pub fn from_bytes(data: Vec<u8>) -> (r: ByteStream)
        ensures
            r.wf(),
            r.buffered() == data@,
            r.consumed() == 0,
    {
        proof {
            vstd::std_specs::vec::axiom_spec_len(&data);
        }
        ByteStream { data, pos: 0 }
    }

    /// Appends bytes at the back of the stream.
    pub fn write_all(&mut self, bytes: &Vec<u8>)
        requires
            old(self).wf(),
        ensures
            final(self).wf(),
            final(self).buffered() == old(self).buffered() + bytes@,
            final(self).consumed() == old(self).consumed(),
    {
        self.data.extend_from_slice(bytes.as_slice());
        proof {
            vstd::std_specs::vec::axiom_spec_len(&self.data);
        }
    }

    /// How many unread bytes are left.
    pub fn remaining_len(&self) -> (n: usize)
        requires
            self.wf(),
        ensures
            n == self.remaining().len(),
    {
        self.data.len() - self.pos
    }

    /// Reads up to `n` bytes from the front: exactly `n` when that many are
    /// left, everything that is left otherwise.
    pub fn read_upto(&mut self, n: usize) -> (r: Vec<u8>)
        requires
            old(self).wf(),
        ensures
            final(self).wf(),
            final(self).buffered() == old(self).buffered(),
            r@.len() == if n <= old(self).remaining().len() {
                n as int
            } else {
                old(self).remaining().len() as int
            },
            r@ == old(self).remaining().take(r@.len() as int),
            final(self).consumed() == old(self).consumed() + r@.len(),
    {
        let avail = self.data.len() - self.pos;
        let k = if n < avail {
            n
        } else {
            avail
        };
        let mut r: Vec<u8> = Vec::new();
        let mut i: usize = 0;
        while i < k
            invariant
                0 <= i <= k,
                self.pos + k <= self.data@.len() <= usize::MAX,
                k == if n <= self.data@.len() - self.pos {
                    n as int
                } else {
                    self.data@.len() - self.pos
                },
                r@ =~= self.data@.subrange(self.pos as int, self.pos + i),
            decreases k - i,
        {
            r.push(self.data[self.pos + i]);
            i = i + 1;
        }
        proof {
            assert(r@ =~= old(self).remaining().take(k as int));
        }
        self.pos = self.pos + k;
        r
    }
}

impl Message {
    /// Encodes the message, prefixes the 8-byte big-endian length of the
    /// encoded body, and writes length then body to the stream. Returns the
    /// number of bytes written. Fails with `EncodingError` only when the
    /// body's length cannot be represented in the 64-bit prefix.
    pub fn send_message(msg: &Self, stream: &mut ByteStream) -> (r: Result<usize, CodecError>)
        requires
            old(stream).wf(),
        ensures
            final(stream).wf(),
            spec_body(*msg).len() <= u64::MAX ==> {
                &&& r is Ok
                &&& r->Ok_0 == 8 + spec_body(*msg).len()
                &&& final(stream).buffered() == old(stream).buffered() + spec_frame(*msg)
                &&& final(stream).consumed() == old(stream).consumed()
            },
            spec_body(*msg).len() > u64::MAX ==> {
                &&& r == Err::<usize, CodecError>(CodecError::EncodingError)
                &&& final(stream).buffered() == old(stream).buffered()
                &&& final(stream).consumed() == old(stream).consumed()
            },
    {
        let mut body = match msg.to_u8_vec() {
            Ok(b) => b,
            Err(e) => {
                return Err(e);
            },
        };
        if (body.len() as u128) > (u64::MAX as u128) {
            return Err(CodecError::EncodingError);
        }
        let len64: u64 = body.len() as u64;
        let mut frame = u64_to_be_bytes(len64);
        frame.append(&mut body);
        proof {
            assert(frame@ =~= spec_frame(*msg));
        }
        let written = frame.len();
        stream.write_all(&frame);
        Ok(written)
    }

    /// Reads one framed message: exactly 8 bytes of length, then exactly that
    /// many bytes of body, which it decodes.
    ///
    /// `StreamClosed` comes if and only if zero bytes are available. A stream
    /// that ends inside the length prefix or inside the announced body fails
    /// with `TruncatedMessage`; the body is never decoded short.
    ///
    /// The last clause is the framing round trip: when the unread bytes begin
    /// with exactly the frame `send_message` writes for a message, that
    /// message comes back and exactly its frame is consumed.
    pub fn receive_message(stream: &mut ByteStream) -> (r: Result<Message, CodecError>)
        requires
            old(stream).wf(),
        ensures
            final(stream).wf(),
            final(stream).buffered() == old(stream).buffered(),
            old(stream).remaining().len() == 0 ==> {
                &&& r == Err::<Message, CodecError>(CodecError::StreamClosed)
                &&& final(stream).consumed() == old(stream).consumed()
            },
            0 < old(stream).remaining().len() < 8 ==> {
                &&& r == Err::<Message, CodecError>(CodecError::TruncatedMessage)
                &&& final(stream).remaining().len() == 0
            },
            old(stream).remaining().len() >= 8 ==> {
                let n = spec_u64_from_be_bytes(old(stream).remaining().take(8)) as int;
                if old(stream).remaining().len() - 8 < n {
                    &&& r == Err::<Message, CodecError>(CodecError::TruncatedMessage)
                    &&& final(stream).consumed() == old(stream).consumed() + 8
                } else {
                    let body = old(stream).remaining().subrange(8, 8 + n);
                    &&& final(stream).consumed() == old(stream).consumed() + 8 + n
                    &&& (n == 0 ==> r == Err::<Message, CodecError>(CodecError::TruncatedMessage))
                    &&& (n > 0 && spec_kind_of_tag(body[0]) is None ==> r == Err::<
                        Message,
                        CodecError,
                    >(CodecError::UnknownMessageType(body[0])))
                    &&& (n > 0 && spec_kind_of_tag(body[0]) is Some ==> {
                        &&& r is Ok
                        &&& r->Ok_0.message_type == spec_kind_of_tag(body[0])->Some_0
                        &&& r->Ok_0.content@ == utf8_lossy_of(body.skip(1))
                        &&& valid_utf8(body.skip(1)) ==> r->Ok_0.content@ == decode_utf8(
                            body.skip(1),
                        )
                    })
                }
            },
            forall|m: Message|
                spec_frame(m).is_prefix_of(old(stream).remaining()) ==> {
                    &&& r is Ok
                    &&& r->Ok_0.message_type == m.message_type
                    &&& r->Ok_0.content@ == m.content@
                    &&& final(stream).consumed() == old(stream).consumed() + spec_frame(m).len()
                },
    {
        let header = stream.read_upto(8);
        if header.len() == 0 {
            return Err(CodecError::StreamClosed);
        }
        if header.len() < 8 {
            return Err(CodecError::TruncatedMessage);
        }
        let n = u64_from_be_bytes(&header);
        let avail = stream.remaining_len();
        if n > (avail as u64) {
            proof {
                lemma_no_frame_when_short(*old(stream), n as int);
            }
            return Err(CodecError::TruncatedMessage);
        }
        let body = stream.read_upto(n as usize);
        let ghost body_snap = body@;
        proof {
            assert(body_snap =~= old(stream).remaining().subrange(8, 8 + n as int));
        }
        let r = Message::from_u8_vec(body);
        proof {
            let rem = old(stream).remaining();
            assert(rem.subrange(8, 8 + n as int) =~= rem.skip(8).take(n as int));
            assert forall|m: Message| spec_frame(m).is_prefix_of(rem) implies {
                &&& r is Ok
                &&& r->Ok_0.message_type == m.message_type
                &&& r->Ok_0.content@ == m.content@
                &&& stream.consumed() == old(stream).consumed() + spec_frame(m).len()
            } by {
                lemma_frame_parse(*old(stream), m);
                let frame = spec_frame(m);
                let blen = spec_body(m).len() as int;
                assert(frame == rem.subrange(0, frame.len() as int));
                assert(n as int == blen);
                assert forall|i: int| 0 <= i < blen implies rem.subrange(8, 8 + blen)[i]
                    == spec_body(m)[i] by {
                    assert(rem.subrange(0, frame.len() as int)[8 + i] == rem[8 + i]);
                    assert(frame[8 + i] == spec_body(m)[i]);
                }
                assert(rem.subrange(8, 8 + blen) =~= spec_body(m));
                assert(body_snap == spec_body(m));
            }
        }
        r
    }
}

/// When the unread bytes begin with a well-formed frame, the length prefix
/// read from them announces exactly that frame's body.
proof fn lemma_frame_parse(s: ByteStream, m: Message)
    requires
        s.wf(),
        spec_frame(m).is_prefix_of(s.remaining()),
    ensures
        spec_body(m).len() <= u64::MAX,
        s.remaining().len() >= 8,
        s.remaining().take(8) == spec_u64_to_be_bytes(spec_body(m).len() as u64),
        spec_u64_from_be_bytes(s.remaining().take(8)) == spec_body(m).len(),
        s.remaining().len() - 8 >= spec_body(m).len(),
{
    let rem = s.remaining();
    let frame = spec_frame(m);
    assert(frame.len() == 8 + spec_body(m).len());
    assert(rem.len() <= usize::MAX);
    assert(spec_body(m).len() <= u64::MAX);
    assert(rem.take(8) =~= frame.take(8));
    assert(frame.take(8) =~= spec_u64_to_be_bytes(spec_body(m).len() as u64));
    lemma_u64_be_bytes_round_trip(spec_body(m).len() as u64);
}

/// When fewer bytes are left than a parsed length announces, no well-formed
/// frame can begin at the front of the stream.
proof fn lemma_no_frame_when_short(s: ByteStream, n: int)
    requires
        s.wf(),
        s.remaining().len() >= 8,
        n == spec_u64_from_be_bytes(s.remaining().take(8)) as int,
        s.remaining().len() - 8 < n,
    ensures
        forall|m: Message| !spec_frame(m).is_prefix_of(s.remaining()),
{
    assert forall|m: Message| !spec_frame(m).is_prefix_of(s.remaining()) by {
        if spec_frame(m).is_prefix_of(s.remaining()) {
            lemma_frame_parse(s, m);
        }
    }
}

} // verus!
