use vstd::prelude::*;

use crate::message::{
    decoded_len, frame, parsed_kind, prefix_parses, prefix_payload, tag_kind, FramingError,
    Message, MessageKind, MAX_PAYLOAD_LEN,
};
use crate::peer::PeerAddress;

verus! {

/// Why a send over a channel failed.
#[derive(Clone, Copy, PartialEq, Eq, Structural, Debug)]
pub enum SendError {
    /// The transport is closed or the peer is unreachable.
    TransportClosed,
}

/// Why a receive over a channel failed.
#[derive(Clone, Copy, PartialEq, Eq, Structural, Debug)]
pub enum ReceiveError {
    /// The transport is closed.
    Disconnected,
    /// The incoming bytes do not frame a message (yet).
    Invalid(FramingError),
}

/// One duplex connection to a peer.
///
/// The transport is modeled by its observable byte streams: `outbox` holds
/// the bytes handed to the transport so far, `inbox` the bytes received from
/// it and not yet consumed. A successful `write` appends one whole frame to
/// `outbox`, so concurrent callers never interleave partial messages; `read`
/// consumes one whole frame from the front of `inbox`. A channel that is not
/// `alive` refuses both.
#[derive(Debug)]
pub struct Channel {
    pub address: PeerAddress,
    pub alive: bool,
    pub outbox: Vec<u8>,
    pub inbox: Vec<u8>,
}

impl Channel {
    /// A fresh, live channel to the given peer with empty streams.
    pub fn new(address: PeerAddress) -> (r: Channel)
        ensures
            r.address == address,
            r.alive,
            r.outbox@ == Seq::<u8>::empty(),
            r.inbox@ == Seq::<u8>::empty(),
    {
        Channel { address, alive: true, outbox: Vec::new(), inbox: Vec::new() }
    }

    /// Mark the transport closed: every later `write` or `read` fails.
    pub fn close(&mut self)
        ensures
            final(self).address == old(self).address,
            !final(self).alive,
            final(self).outbox@ == old(self).outbox@,
            final(self).inbox@ == old(self).inbox@,
    {
        self.alive = false;
    }

    /// Serialize the message and hand its frame to the transport.
    ///
    /// Succeeds if and only if the channel is alive; a failed write leaves
    /// the outbox untouched and is the caller's to absorb.
    pub fn write(&mut self, message: &Message) -> (r: Result<(), SendError>)
        requires
            message.wf(),
        ensures
            final(self).address == old(self).address,
            final(self).alive == old(self).alive,
            final(self).inbox@ == old(self).inbox@,
            old(self).alive ==> r is Ok && final(self).outbox@ == old(self).outbox@ + frame(
                message.kind,
                message.payload@,
            ),
            !old(self).alive ==> r == Err::<(), SendError>(SendError::TransportClosed)
                && final(self).outbox@ == old(self).outbox@,
    {
        if !self.alive {
            return Err(SendError::TransportClosed);
        }
        let mut bytes = message.serialize();
        self.outbox.append(&mut bytes);
        Ok(())
    }

    /// Frame one message out of the received byte stream.
    ///
    /// If the inbox starts with a complete, well-formed frame, that frame is
    /// consumed and its message returned; too few bytes for a whole frame
    /// report `Truncated` and consume nothing, so the caller can retry once
    /// more bytes have arrived.
    pub fn read(&mut self) -> (r: Result<Message, ReceiveError>)
        ensures
            final(self).address == old(self).address,
            final(self).alive == old(self).alive,
            final(self).outbox@ == old(self).outbox@,
            !old(self).alive ==> r == Err::<Message, ReceiveError>(ReceiveError::Disconnected)
                && final(self).inbox@ == old(self).inbox@,
            old(self).alive && !prefix_parses(old(self).inbox@) ==> r is Err && final(self).inbox@
                == old(self).inbox@,
            old(self).alive && old(self).inbox@.len() < 5 ==> r == Err::<Message, ReceiveError>(
                ReceiveError::Invalid(FramingError::Truncated),
            ),
            old(self).alive && old(self).inbox@.len() >= 5 && tag_kind(old(self).inbox@[0]) is None
                ==> r == Err::<Message, ReceiveError>(ReceiveError::Invalid(
                FramingError::UnknownTag,
            )),
            old(self).alive && old(self).inbox@.len() >= 5 && tag_kind(
                old(self).inbox@[0],
            ) is Some && decoded_len(old(self).inbox@) > MAX_PAYLOAD_LEN ==> r == Err::<
                Message,
                ReceiveError,
            >(ReceiveError::Invalid(FramingError::OversizedPayload)),
            old(self).alive && old(self).inbox@.len() >= 5 && tag_kind(
                old(self).inbox@[0],
            ) is Some && decoded_len(old(self).inbox@) <= MAX_PAYLOAD_LEN && old(self).inbox@.len()
                < 5 + decoded_len(old(self).inbox@) ==> r == Err::<Message, ReceiveError>(
                ReceiveError::Invalid(FramingError::Truncated),
            ),
            old(self).alive && prefix_parses(old(self).inbox@) ==> (r matches Ok(m) && m.kind
                == parsed_kind(old(self).inbox@) && m.payload@ == prefix_payload(old(self).inbox@)
                && m.wf() && final(self).inbox@ == old(self).inbox@.skip(
                5 + decoded_len(old(self).inbox@) as int,
            )),
    {
        if !self.alive {
            return Err(ReceiveError::Disconnected);
        }
        if self.inbox.len() < 5 {
            return Err(ReceiveError::Invalid(FramingError::Truncated));
        }
        let tag: u8 = self.inbox[0];
        let kind: MessageKind = if tag == 1 {
            MessageKind::Transaction
        } else if tag == 2 {
            MessageKind::Block
        } else if tag == 3 {
            MessageKind::Version
        } else {
            return Err(ReceiveError::Invalid(FramingError::UnknownTag));
        };
        let n: u32 = ((self.inbox[1] as u32) << 24) | ((self.inbox[2] as u32) << 16) | ((
        self.inbox[3] as u32) << 8) | (self.inbox[4] as u32);
        proof {
            assert(n == decoded_len(self.inbox@));
        }
        if n as usize > MAX_PAYLOAD_LEN {
            return Err(ReceiveError::Invalid(FramingError::OversizedPayload));
        }
        let total: usize = 5 + n as usize;
        if self.inbox.len() < total {
            return Err(ReceiveError::Invalid(FramingError::Truncated));
        }
        let mut payload: Vec<u8> = Vec::new();
        let mut i: usize = 5;
        while i < total
            invariant
                5 <= i <= total,
                total <= self.inbox@.len(),
                payload@ == self.inbox@.subrange(5, i as int),
            decreases total - i,
        {
            let b: u8 = self.inbox[i];
            payload.push(b);
            proof {
                assert(self.inbox@.subrange(5, i + 1) =~= self.inbox@.subrange(5, i as int).push(
                    b,
                ));
            }
            i += 1;
        }
        let mut rest: Vec<u8> = Vec::new();
        let mut j: usize = total;
        while j < self.inbox.len()
            invariant
                total <= j <= self.inbox@.len(),
                rest@ == self.inbox@.subrange(total as int, j as int),
            decreases self.inbox@.len() - j,
        {
            let b: u8 = self.inbox[j];
            rest.push(b);
            proof {
                assert(self.inbox@.subrange(total as int, j + 1) =~= self.inbox@.subrange(
                    total as int,
                    j as int,
                ).push(b));
            }
            j += 1;
        }
        proof {
            assert(payload@ == prefix_payload(old(self).inbox@));
            assert(rest@ =~= old(self).inbox@.skip(total as int));
        }
        self.inbox = rest;
        Ok(Message { kind, payload })
    }
}

} // verus!
