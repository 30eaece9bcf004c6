use vstd::prelude::*;

verus! {

/// Largest payload a frame may carry. Receivers reject frames whose declared
/// length exceeds this bound, so a malicious peer cannot force unbounded
/// allocation.
pub const MAX_PAYLOAD_LEN: usize = 1048576;

/// The tag of a message: it determines how the payload bytes are interpreted
/// downstream.
#[derive(Clone, Copy, PartialEq, Eq, Structural, Debug)]
pub enum MessageKind {
    Transaction,
    Block,
    Version,
}

/// A typed message: a kind tag over an opaque byte payload. Payload semantics
/// are not validated here.
#[derive(PartialEq, Eq, Debug)]
pub struct Message {
    pub kind: MessageKind,
    pub payload: Vec<u8>,
}

/// Why a byte buffer failed to parse as a message frame.
#[derive(Clone, Copy, PartialEq, Eq, Structural, Debug)]
pub enum FramingError {
    /// Too few bytes for a header, or fewer bytes than the header declares.
    Truncated,
    /// The tag byte names no known message kind.
    UnknownTag,
    /// The declared payload length exceeds `MAX_PAYLOAD_LEN`.
    OversizedPayload,
    /// The buffer holds more bytes than the one frame it should be.
    LengthMismatch,
}

/// The wire tag byte of each message kind.
pub open spec fn kind_tag(kind: MessageKind) -> u8 {
    match kind {
        MessageKind::Transaction => 1u8,
        MessageKind::Block => 2u8,
        MessageKind::Version => 3u8,
    }
}

/// The message kind a wire tag byte stands for, if any.
pub open spec fn tag_kind(tag: u8) -> Option<MessageKind> {
    if tag == 1u8 {
        Some(MessageKind::Transaction)
    } else if tag == 2u8 {
        Some(MessageKind::Block)
    } else if tag == 3u8 {
        Some(MessageKind::Version)
    } else {
        None
    }
}

/// A payload length as four big-endian bytes.
pub open spec fn len_bytes(n: u32) -> Seq<u8> {
    seq![
        ((n >> 24) & 0xff) as u8,
        ((n >> 16) & 0xff) as u8,
        ((n >> 8) & 0xff) as u8,
        (n & 0xff) as u8,
    ]
}

/// The payload length a frame header declares.
pub open spec fn decoded_len(b: Seq<u8>) -> u32 {
    ((b[1] as u32) << 24) | ((b[2] as u32) << 16) | ((b[3] as u32) << 8) | (b[4] as u32)
}

/// The wire form of a message: one tag byte, the payload length as four
/// big-endian bytes, then the payload itself. The length makes the format
/// self-delimiting on a stream transport.
pub open spec fn frame(kind: MessageKind, payload: Seq<u8>) -> Seq<u8> {
    seq![kind_tag(kind)] + len_bytes(payload.len() as u32) + payload
}

/// Whether a buffer is exactly one well-formed frame.
pub open spec fn parses(b: Seq<u8>) -> bool {
    &&& b.len() >= 5
    &&& tag_kind(b[0]) is Some
    &&& decoded_len(b) <= MAX_PAYLOAD_LEN
    &&& b.len() == 5 + decoded_len(b)
}

/// Whether a buffer starts with one well-formed frame (possibly followed by
/// more bytes of the stream).
pub open spec fn prefix_parses(b: Seq<u8>) -> bool {
    &&& b.len() >= 5
    &&& tag_kind(b[0]) is Some
    &&& decoded_len(b) <= MAX_PAYLOAD_LEN
    &&& b.len() >= 5 + decoded_len(b)
}

/// The kind of the message a frame holds.
pub open spec fn parsed_kind(b: Seq<u8>) -> MessageKind {
    match tag_kind(b[0]) {
        Some(k) => k,
        None => MessageKind::Transaction,
    }
}

/// The payload of the frame at the head of a buffer.
pub open spec fn prefix_payload(b: Seq<u8>) -> Seq<u8> {
    b.subrange(5, 5 + decoded_len(b) as int)
}

impl Message {
    /// The payload is small enough to frame.
    pub open spec fn wf(self) -> bool {
        self.payload@.len() <= MAX_PAYLOAD_LEN
    }

    /// Wrap raw payload bytes with a kind tag.
    pub fn new(kind: MessageKind, payload: Vec<u8>) -> (r: Message)
        ensures
            r.kind == kind,
            r.payload@ == payload@,
    {
        Message { kind, payload }
    }

    /// Encode the message in its wire form.
    pub fn serialize(&self) -> (r: Vec<u8>)
        requires
            self.wf(),
        ensures
            r@ == frame(self.kind, self.payload@),
            parses(r@),
    {
        let n: u32 = self.payload.len() as u32;
        let tag: u8 = match self.kind {
            MessageKind::Transaction => 1,
            MessageKind::Block => 2,
            MessageKind::Version => 3,
        };
        let mut out: Vec<u8> = Vec::new();
        out.push(tag);
        out.push(((n >> 24) & 0xff) as u8);
        out.push(((n >> 16) & 0xff) as u8);
        out.push(((n >> 8) & 0xff) as u8);
        out.push((n & 0xff) as u8);
        proof {
            assert(n == self.payload@.len() as u32);
            assert(out@ =~= seq![kind_tag(self.kind)] + len_bytes(n));
        }
        let mut i: usize = 0;
        while i < self.payload.len()
            invariant
                i <= self.payload@.len(),
                self.payload@.len() <= MAX_PAYLOAD_LEN,
                n == self.payload@.len() as u32,
                out@ == seq![kind_tag(self.kind)] + len_bytes(n) + self.payload@.take(i as int),
            decreases self.payload@.len() - i,
        {
            let b: u8 = self.payload[i];
            out.push(b);
            proof {
                assert(self.payload@.take(i + 1) =~= self.payload@.take(i as int).push(b));
            }
            i += 1;
        }
        proof {
            assert(self.payload@.take(self.payload@.len() as int) =~= self.payload@);
            assert(out@ == frame(self.kind, self.payload@));
            lemma_frame_round_trip(self.kind, self.payload@);
        }
        out
    }

    /// Decode a buffer holding exactly one frame.
    pub fn deserialize(bytes: &Vec<u8>) -> (r: Result<Message, FramingError>)
        ensures
            bytes@.len() < 5 ==> r == Err::<Message, FramingError>(FramingError::Truncated),
            bytes@.len() >= 5 && tag_kind(bytes@[0]) is None ==> r == Err::<Message, FramingError>(
                FramingError::UnknownTag,
            ),
            bytes@.len() >= 5 && tag_kind(bytes@[0]) is Some && decoded_len(bytes@)
                > MAX_PAYLOAD_LEN ==> r == Err::<Message, FramingError>(
                FramingError::OversizedPayload,
            ),
            bytes@.len() >= 5 && tag_kind(bytes@[0]) is Some && decoded_len(bytes@)
                <= MAX_PAYLOAD_LEN && bytes@.len() != 5 + decoded_len(bytes@) ==> r == Err::<
                Message,
                FramingError,
            >(FramingError::LengthMismatch),
            parses(bytes@) ==> (r matches Ok(m) && m.kind == parsed_kind(bytes@) && m.payload@
                == prefix_payload(bytes@) && m.wf()),
    {
        if bytes.len() < 5 {
            return Err(FramingError::Truncated);
        }
        let tag: u8 = bytes[0];
        let kind: MessageKind = if tag == 1 {
            MessageKind::Transaction
        } else if tag == 2 {
            MessageKind::Block
        } else if tag == 3 {
            MessageKind::Version
        } else {
            return Err(FramingError::UnknownTag);
        };
        let n: u32 = ((bytes[1] as u32) << 24) | ((bytes[2] as u32) << 16) | ((bytes[3] as u32)
            << 8) | (bytes[4] as u32);
        proof {
            assert(n == decoded_len(bytes@));
        }
        if n as usize > MAX_PAYLOAD_LEN {
            return Err(FramingError::OversizedPayload);
        }
        if bytes.len() != 5 + n as usize {
            return Err(FramingError::LengthMismatch);
        }
        let end: usize = bytes.len();
        let mut payload: Vec<u8> = Vec::new();
        let mut i: usize = 5;
        while i < end
            invariant
                5 <= i <= end,
                end == bytes@.len(),
                payload@ == bytes@.subrange(5, i as int),
            decreases end - i,
        {
            let b: u8 = bytes[i];
            payload.push(b);
            proof {
                assert(bytes@.subrange(5, i + 1) =~= bytes@.subrange(5, i as int).push(b));
            }
            i += 1;
        }
        proof {
            assert(payload@ == prefix_payload(bytes@));
        }
        Ok(Message { kind, payload })
    }
}

/// Recombining the four big-endian bytes of a length yields the length back.
proof fn lemma_byte_recompose(n: u32)
    ensures
        (((((n >> 24) & 0xff) as u8) as u32) << 24) | (((((n >> 16) & 0xff) as u8) as u32) << 16)
            | (((((n >> 8) & 0xff) as u8) as u32) << 8) | (((n & 0xff) as u8) as u32) == n,
{
    assert((((((n >> 24) & 0xff) as u8) as u32) << 24) | (((((n >> 16) & 0xff) as u8) as u32)
        << 16) | (((((n >> 8) & 0xff) as u8) as u32) << 8) | (((n & 0xff) as u8) as u32) == n)
        by (bit_vector);
}

/// Round-trip framing: the wire form of any message within the payload bound
/// parses back to the same kind and payload.
pub proof fn lemma_frame_round_trip(kind: MessageKind, payload: Seq<u8>)
    requires
        payload.len() <= MAX_PAYLOAD_LEN,
    ensures
        parses(frame(kind, payload)),
        parsed_kind(frame(kind, payload)) == kind,
        prefix_payload(frame(kind, payload)) == payload,
{
    let b = frame(kind, payload);
    let n: u32 = payload.len() as u32;
    assert(payload.len() < 0x100000000);
    assert(n == payload.len());
    assert(b.len() == 5 + payload.len());
    assert(b[0] == kind_tag(kind));
    assert(tag_kind(kind_tag(kind)) == Some(kind));
    assert(b[1] == ((n >> 24) & 0xff) as u8);
    assert(b[2] == ((n >> 16) & 0xff) as u8);
    assert(b[3] == ((n >> 8) & 0xff) as u8);
    assert(b[4] == (n & 0xff) as u8);
    lemma_byte_recompose(n);
    assert(decoded_len(b) == n);
    assert(prefix_payload(b) =~= payload);
}

} // verus!
