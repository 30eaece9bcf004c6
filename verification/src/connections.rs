use vstd::prelude::*;

use crate::channel::{Channel, SendError};
use crate::message::{frame, Message};
use crate::peer::PeerAddress;

verus! {

/// The connection map: the live channels, keyed by peer address.
///
/// A channel is the only path for sending to its peer. Addresses are unique,
/// so looking one up resolves to at most one channel.
pub struct Connections {
    channels: Vec<Channel>,
}

impl Connections {
    /// The channels the map holds, in insertion order.
    pub closed spec fn channel_seq(self) -> Seq<Channel> {
        self.channels@
    }

    /// Each address keys at most one channel.
    pub open spec fn wf(self) -> bool {
        forall|i: int, j: int|
            0 <= i < j < self.channel_seq().len() ==> (#[trigger] self.channel_seq()[i]).address
                != (#[trigger] self.channel_seq()[j]).address
    }

    /// Whether the map holds a channel for the address.
    pub open spec fn has_channel(self, a: PeerAddress) -> bool {
        exists|i: int|
            0 <= i < self.channel_seq().len() && (#[trigger] self.channel_seq()[i]).address == a
    }

    /// An empty map.
    pub fn new() -> (r: Connections)
        ensures
            r.channel_seq() == Seq::<Channel>::empty(),
            r.wf(),
    {
        Connections { channels: Vec::new() }
    }

    pub fn len(&self) -> (r: usize)
        ensures
            r == self.channel_seq().len(),
    {
        self.channels.len()
    }

    pub fn contains(&self, address: PeerAddress) -> (r: bool)
        ensures
            r == self.has_channel(address),
    {
        match self.index_of(address) {
            Some(_) => true,
            None => false,
        }
    }

    /// Look up the channel for an address.
    pub fn get(&self, address: PeerAddress) -> (r: Option<&Channel>)
        ensures
            match r {
                Some(ch) => ch.address == address && exists|i: int|
                    0 <= i < self.channel_seq().len() && #[trigger] self.channel_seq()[i] == *ch,
                None => !self.has_channel(address),
            },
    {
        match self.index_of(address) {
            Some(i) => Some(&self.channels[i]),
            None => None,
        }
    }

    /// The index of the channel for an address, if there is one.
    pub(crate) fn index_of(&self, address: PeerAddress) -> (r: Option<usize>)
        ensures
            match r {
                Some(i) => i < self.channel_seq().len() && self.channel_seq()[i as int].address
                    == address,
                None => !self.has_channel(address),
            },
    {
        let mut i: usize = 0;
        while i < self.channels.len()
            invariant
                i <= self.channels@.len(),
                forall|t: int| 0 <= t < i ==> (#[trigger] self.channels@[t]).address != address,
            decreases self.channels@.len() - i,
        {
            if self.channels[i].address == address {
                return Some(i);
            }
            i += 1;
        }
        None
    }

    /// Add the channel for a peer the map does not yet hold.
    pub fn insert(&mut self, channel: Channel)
        requires
            old(self).wf(),
            !old(self).has_channel(channel.address),
        ensures
            final(self).wf(),
            final(self).channel_seq() == old(self).channel_seq().push(channel),
    {
        self.channels.push(channel);
        proof {
            assert forall|i: int, j: int|
                0 <= i < j < self.channels@.len() implies (#[trigger] self.channels@[i]).address
                != (#[trigger] self.channels@[j]).address by {
                if j == self.channels@.len() - 1 {
                    assert(self.channels@[i] == old(self).channels@[i]);
                    assert(old(self).channel_seq()[i].address != channel.address) by {
                        if old(self).channel_seq()[i].address == channel.address {
                            assert(old(self).has_channel(channel.address));
                        }
                    }
                } else {
                    assert(self.channels@[i] == old(self).channels@[i]);
                    assert(self.channels@[j] == old(self).channels@[j]);
                    assert((old(self).channel_seq()[i]).address != (old(
                        self,
                    ).channel_seq()[j]).address);
                }
            }
        }
    }

    /// Drop the channel for an address, handing it back if there was one.
    pub fn remove(&mut self, address: PeerAddress) -> (r: Option<Channel>)
        requires
            old(self).wf(),
        ensures
            final(self).wf(),
            !old(self).has_channel(address) ==> r is None && final(self).channel_seq() == old(
                self,
            ).channel_seq(),
            old(self).has_channel(address) ==> (exists|i: int|
                0 <= i < old(self).channel_seq().len() && (#[trigger] old(self).channel_seq()[
                    i
                ]).address == address && final(self).channel_seq() == old(
                    self,
                ).channel_seq().remove(i) && r == Some(old(self).channel_seq()[i])),
    {
        match self.index_of(address) {
            None => None,
            Some(i) => {
                let ghost pre = self.channels@;
                let ch = self.channels.remove(i);
                proof {
                    assert(self.channels@ == pre.remove(i as int));
                    assert forall|p: int, q: int|
                        0 <= p < q < self.channels@.len() implies (
                    #[trigger] self.channels@[p]).address != (
                    #[trigger] self.channels@[q]).address by {
                        let p0: int = if p < i { p } else { p + 1 };
                        let q0: int = if q < i { q } else { q + 1 };
                        assert(self.channels@[p] == pre[p0]);
                        assert(self.channels@[q] == pre[q0]);
                        assert(pre[p0].address != pre[q0].address);
                    }
                }
                Some(ch)
            },
        }
    }

    /// Whether every address keys at most one channel, checked executably.
    pub fn check_wf(&self) -> (r: bool)
        ensures
            r == self.wf(),
    {
        let n: usize = self.channels.len();
        let mut i: usize = 0;
        while i < n
            invariant
                n == self.channels@.len(),
                i <= n,
                forall|p: int, q: int|
                    0 <= p < q < n && p < i ==> (#[trigger] self.channels@[p]).address != (
                    #[trigger] self.channels@[q]).address,
            decreases n - i,
        {
            let mut j: usize = i + 1;
            while j < n
                invariant
                    n == self.channels@.len(),
                    i < n,
                    i + 1 <= j <= n,
                    forall|q: int|
                        i < q < j ==> (#[trigger] self.channels@[q]).address != self.channels@[
                            i as int
                        ].address,
                decreases n - j,
            {
                if self.channels[i].address == self.channels[j].address {
                    proof {
                        assert((self.channel_seq()[i as int]).address == (self.channel_seq()[
                            j as int
                        ]).address);
                    }
                    return false;
                }
                j += 1;
            }
            i += 1;
        }
        true
    }

    /// Write a message to the channel at an index: the one outcome-bearing
    /// step of a broadcast. Only that channel's outbox changes, and only on
    /// success.
    pub(crate) fn write_at(&mut self, i: usize, message: &Message) -> (r: Result<(), SendError>)
        requires
            old(self).wf(),
            i < old(self).channel_seq().len(),
            message.wf(),
        ensures
            final(self).wf(),
            final(self).channel_seq().len() == old(self).channel_seq().len(),
            forall|k: int|
                0 <= k < old(self).channel_seq().len() && k != i ==> final(self).channel_seq()[k]
                    == old(self).channel_seq()[k],
            final(self).channel_seq()[i as int].address == old(self).channel_seq()[
                i as int
            ].address,
            final(self).channel_seq()[i as int].alive == old(self).channel_seq()[i as int].alive,
            final(self).channel_seq()[i as int].inbox@ == old(self).channel_seq()[
                i as int
            ].inbox@,
            old(self).channel_seq()[i as int].alive ==> r is Ok && final(self).channel_seq()[
                i as int
            ].outbox@ == old(self).channel_seq()[i as int].outbox@ + frame(
                message.kind,
                message.payload@,
            ),
            !old(self).channel_seq()[i as int].alive ==> r == Err::<(), SendError>(
                SendError::TransportClosed,
            ) && final(self).channel_seq()[i as int].outbox@ == old(self).channel_seq()[
                i as int
            ].outbox@,
    {
        let ghost pre = self.channels@;
        let mut ch = self.channels.remove(i);
        let r = ch.write(message);
        self.channels.insert(i, ch);
        proof {
            assert(self.channels@ =~= pre.update(i as int, ch));
            assert forall|p: int, q: int|
                0 <= p < q < self.channels@.len() implies (#[trigger] self.channels@[p]).address
                != (#[trigger] self.channels@[q]).address by {
                assert(pre[p].address != pre[q].address);
                if p == i {
                    assert(self.channels@[q] == pre[q]);
                } else if q == i {
                    assert(self.channels@[p] == pre[p]);
                }
            }
        }
        r
    }
}

} // verus!
