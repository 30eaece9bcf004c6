use vstd::prelude::*;

use crate::peer::PeerAddress;

verus! {

/// The registry of peer addresses and their connection state.
///
/// Each address appears at most once; a peer stays in the book across
/// disconnects, so an address may transition connected and disconnected any
/// number of times.
pub struct PeerBook {
    peers: Vec<(PeerAddress, bool)>,
}

impl PeerBook {
    /// Each address appears at most once in the book.
    pub closed spec fn wf(self) -> bool {
        forall|i: int, j: int|
            0 <= i < j < self.peers@.len() ==> (#[trigger] self.peers@[i]).0 != (
            #[trigger] self.peers@[j]).0
    }

    /// Whether one of the first `bound` entries records the address as
    /// connected.
    spec fn connected_before(self, bound: int, a: PeerAddress) -> bool {
        exists|t: int| 0 <= t < bound && (#[trigger] self.peers@[t]).0 == a && self.peers@[t].1
    }

    /// Whether the book currently records the address as connected.
    pub closed spec fn is_connected(self, a: PeerAddress) -> bool {
        self.connected_before(self.peers@.len() as int, a)
    }

    /// Whether the book holds any record of the address.
    pub closed spec fn is_known(self, a: PeerAddress) -> bool {
        exists|i: int| 0 <= i < self.peers@.len() && (#[trigger] self.peers@[i]).0 == a
    }

    /// An empty book: no address is known or connected.
    pub fn new() -> (r: PeerBook)
        ensures
            r.wf(),
            forall|a: PeerAddress| !(#[trigger] r.is_known(a)),
            forall|a: PeerAddress| !(#[trigger] r.is_connected(a)),
    {
        PeerBook { peers: Vec::new() }
    }

    /// The index of the entry for an address, if there is one.
    fn find(&self, address: PeerAddress) -> (r: Option<usize>)
        ensures
            match r {
                Some(i) => i < self.peers@.len() && self.peers@[i as int].0 == address,
                None => !self.is_known(address),
            },
    {
        let mut i: usize = 0;
        while i < self.peers.len()
            invariant
                i <= self.peers@.len(),
                forall|t: int| 0 <= t < i ==> (#[trigger] self.peers@[t]).0 != address,
            decreases self.peers@.len() - i,
        {
            if self.peers[i].0 == address {
                return Some(i);
            }
            i += 1;
        }
        None
    }

    /// Record the address as connected; idempotent.
    ///
    /// No other address's state changes.
    pub fn mark_connected(&mut self, address: PeerAddress)
        requires
            old(self).wf(),
        ensures
            final(self).wf(),
            final(self).is_connected(address),
            final(self).is_known(address),
            forall|b: PeerAddress|
                b != address ==> #[trigger] final(self).is_connected(b) == old(self).is_connected(
                    b,
                ),
            forall|b: PeerAddress|
                b != address ==> #[trigger] final(self).is_known(b) == old(self).is_known(b),
    {
        match self.find(address) {
            Some(i) => {
                self.peers.set(i, (address, true));
                proof {
                    lemma_entry_set(old(self).peers@, self.peers@, i as int, address, true);
                    self.lemma_state_from_entries(*old(self), address);
                    assert(self.peers@[i as int].0 == address && self.peers@[i as int].1);
                }
            },
            None => {
                self.peers.push((address, true));
                proof {
                    lemma_entry_pushed(old(self).peers@, self.peers@, address, true);
                    self.lemma_state_from_entries(*old(self), address);
                    let ghost t = old(self).peers@.len() as int;
                    assert(self.peers@[t].0 == address && self.peers@[t].1);
                }
            },
        }
    }

    /// Record the address as disconnected; idempotent, and a no-op for an
    /// address the book does not know.
    ///
    /// The address stays known; no other address's state changes.
    pub fn mark_disconnected(&mut self, address: PeerAddress)
        requires
            old(self).wf(),
        ensures
            final(self).wf(),
            !final(self).is_connected(address),
            final(self).is_known(address) == old(self).is_known(address),
            forall|b: PeerAddress|
                b != address ==> #[trigger] final(self).is_connected(b) == old(self).is_connected(
                    b,
                ),
            forall|b: PeerAddress|
                b != address ==> #[trigger] final(self).is_known(b) == old(self).is_known(b),
    {
        match self.find(address) {
            Some(i) => {
                self.peers.set(i, (address, false));
                proof {
                    lemma_entry_set(old(self).peers@, self.peers@, i as int, address, false);
                    self.lemma_state_from_entries(*old(self), address);
                    assert forall|t: int|
                        0 <= t < self.peers@.len() && (#[trigger] self.peers@[t]).0
                            == address implies !self.peers@[t].1 by {
                        if t != i {
                            assert(self.peers@[t] == old(self).peers@[t]);
                            assert(old(self).peers@[i as int].0 == address);
                            assert(old(self).peers@[t].0 != old(self).peers@[i as int].0);
                        }
                    }
                    assert(!self.is_connected(address));
                    assert(self.is_known(address)) by {
                        assert(self.peers@[i as int].0 == address);
                    }
                    assert(old(self).is_known(address)) by {
                        assert(old(self).peers@[i as int].0 == address);
                    }
                }
            },
            None => {
                proof {
                    assert(!self.is_connected(address)) by {
                        if self.is_connected(address) {
                            let t = choose|t: int|
                                0 <= t < self.peers@.len() && (#[trigger] self.peers@[t]).0
                                    == address && self.peers@[t].1;
                            assert(self.is_known(address));
                        }
                    }
                }
            },
        }
    }

    /// A point-in-time snapshot of the connected addresses: each connected
    /// address exactly once, in book order.
    pub fn get_connected(&self) -> (r: Vec<PeerAddress>)
        requires
            self.wf(),
        ensures
            forall|a: PeerAddress| #[trigger] r@.contains(a) <==> self.is_connected(a),
            forall|k1: int, k2: int| 0 <= k1 < k2 < r@.len() ==> r@[k1] != r@[k2],
    {
        let mut out: Vec<PeerAddress> = Vec::new();
        let mut i: usize = 0;
        while i < self.peers.len()
            invariant
                self.wf(),
                i <= self.peers@.len(),
                forall|k: int|
                    0 <= k < out@.len() ==> self.connected_before(i as int, #[trigger] out@[k]),
                forall|t: int|
                    0 <= t < i && (#[trigger] self.peers@[t]).1 ==> out@.contains(
                        self.peers@[t].0,
                    ),
                forall|k1: int, k2: int| 0 <= k1 < k2 < out@.len() ==> out@[k1] != out@[k2],
            decreases self.peers@.len() - i,
        {
            let entry: (PeerAddress, bool) = self.peers[i];
            if entry.1 {
                proof {
                    assert forall|k: int| 0 <= k < out@.len() implies out@[k] != entry.0 by {
                        let t = choose|t: int|
                            0 <= t < i && (#[trigger] self.peers@[t]).0 == out@[k]
                                && self.peers@[t].1;
                        assert(self.peers@[t].0 != self.peers@[i as int].0);
                    }
                }
                let ghost out0 = out@;
                out.push(entry.0);
                proof {
                    assert forall|t: int|
                        0 <= t < i + 1 && (#[trigger] self.peers@[t]).1 implies out@.contains(
                        self.peers@[t].0,
                    ) by {
                        if t < i {
                            assert(out0.contains(self.peers@[t].0));
                            let k = choose|k: int|
                                0 <= k < out0.len() && out0[k] == self.peers@[t].0;
                            assert(out@[k] == self.peers@[t].0);
                        } else {
                            assert(out@[out@.len() - 1] == entry.0);
                        }
                    }
                }
            }
            proof {
                assert forall|k: int| 0 <= k < out@.len() implies self.connected_before(
                    i + 1,
                    #[trigger] out@[k],
                ) by {
                    if k < out@.len() - 1 || self.connected_before(i as int, out@[k]) {
                        let t = choose|t: int|
                            0 <= t < i && (#[trigger] self.peers@[t]).0 == out@[k]
                                && self.peers@[t].1;
                        assert(0 <= t < i + 1 && self.peers@[t].0 == out@[k]
                            && self.peers@[t].1);
                    } else {
                        assert(self.peers@[i as int].0 == out@[k] && self.peers@[i as int].1);
                        assert(0 <= i < i + 1);
                    }
                }
            }
            i += 1;
        }
        proof {
            assert forall|a: PeerAddress| #[trigger] out@.contains(a) implies self.is_connected(
                a,
            ) by {
                let k = choose|k: int| 0 <= k < out@.len() && out@[k] == a;
                assert(self.connected_before(self.peers@.len() as int, out@[k]));
            }
            assert forall|a: PeerAddress| self.is_connected(a) implies #[trigger] out@.contains(
                a,
            ) by {
                let t = choose|t: int|
                    0 <= t < self.peers@.len() && (#[trigger] self.peers@[t]).0 == a
                        && self.peers@[t].1;
                assert(out@.contains(self.peers@[t].0));
            }
        }
        out
    }

    /// Whether every address appears at most once, checked executably.
    pub fn check_wf(&self) -> (r: bool)
        ensures
            r == self.wf(),
    {
        let n: usize = self.peers.len();
        let mut i: usize = 0;
        while i < n
            invariant
                n == self.peers@.len(),
                i <= n,
                forall|p: int, q: int|
                    0 <= p < q < n && p < i ==> (#[trigger] self.peers@[p]).0 != (
                    #[trigger] self.peers@[q]).0,
            decreases n - i,
        {
            let mut j: usize = i + 1;
            while j < n
                invariant
                    n == self.peers@.len(),
                    i < n,
                    i + 1 <= j <= n,
                    forall|q: int|
                        i < q < j ==> (#[trigger] self.peers@[q]).0 != self.peers@[i as int].0,
                decreases n - j,
            {
                if self.peers[i].0 == self.peers[j].0 {
                    return false;
                }
                j += 1;
            }
            i += 1;
        }
        true
    }

    /// After a change that touches only the entry for `address`, every other
    /// address keeps its connected and known state.
    proof fn lemma_state_from_entries(self, pre: PeerBook, address: PeerAddress)
        requires
            self.peers@.len() >= pre.peers@.len(),
            self.peers@.len() <= pre.peers@.len() + 1,
            forall|t: int|
                0 <= t < pre.peers@.len() && (#[trigger] pre.peers@[t]).0 != address
                    ==> self.peers@[t] == pre.peers@[t],
            forall|t: int|
                0 <= t < pre.peers@.len() && (#[trigger] self.peers@[t]).0 != address
                    ==> self.peers@[t] == pre.peers@[t],
            self.peers@.len() > pre.peers@.len() ==> self.peers@[pre.peers@.len() as int].0
                == address,
        ensures
            forall|b: PeerAddress|
                b != address ==> #[trigger] self.is_connected(b) == pre.is_connected(b),
            forall|b: PeerAddress| b != address ==> #[trigger] self.is_known(b) == pre.is_known(b),
    {
        assert forall|b: PeerAddress| b != address implies #[trigger] self.is_connected(b)
            == pre.is_connected(b) by {
            if self.is_connected(b) {
                let t = choose|t: int|
                    0 <= t < self.peers@.len() && (#[trigger] self.peers@[t]).0 == b
                        && self.peers@[t].1;
                assert(t < pre.peers@.len());
                assert(pre.peers@[t] == self.peers@[t]);
                assert(pre.is_connected(b));
            }
            if pre.is_connected(b) {
                let t = choose|t: int|
                    0 <= t < pre.peers@.len() && (#[trigger] pre.peers@[t]).0 == b
                        && pre.peers@[t].1;
                assert(self.peers@[t] == pre.peers@[t]);
                assert(self.is_connected(b));
            }
        }
        assert forall|b: PeerAddress| b != address implies #[trigger] self.is_known(b)
            == pre.is_known(b) by {
            if self.is_known(b) {
                let t = choose|t: int|
                    0 <= t < self.peers@.len() && (#[trigger] self.peers@[t]).0 == b;
                assert(t < pre.peers@.len());
                assert(pre.peers@[t] == self.peers@[t]);
                assert(pre.is_known(b));
            }
            if pre.is_known(b) {
                let t = choose|t: int|
                    0 <= t < pre.peers@.len() && (#[trigger] pre.peers@[t]).0 == b;
                assert(self.peers@[t] == pre.peers@[t]);
                assert(self.is_known(b));
            }
        }
    }
}

/// Setting the entry at a found index keeps addresses unique and touches only
/// that entry; the written state is visible at the index.
proof fn lemma_entry_set(
    pre: Seq<(PeerAddress, bool)>,
    post: Seq<(PeerAddress, bool)>,
    i: int,
    address: PeerAddress,
    state: bool,
)
    requires
        forall|p: int, q: int| 0 <= p < q < pre.len() ==> (#[trigger] pre[p]).0 != (
        #[trigger] pre[q]).0,
        0 <= i < pre.len(),
        pre[i].0 == address,
        post == pre.update(i, (address, state)),
    ensures
        forall|p: int, q: int| 0 <= p < q < post.len() ==> (#[trigger] post[p]).0 != (
        #[trigger] post[q]).0,
        post.len() == pre.len(),
        post[i] == (address, state),
        forall|t: int| 0 <= t < pre.len() && t != i ==> #[trigger] post[t] == pre[t],
        forall|t: int| 0 <= t < pre.len() && (#[trigger] pre[t]).0 != address ==> post[t] == pre[t],
        forall|t: int| 0 <= t < post.len() && (#[trigger] post[t]).0 != address ==> post[t]
            == pre[t],
{
    assert forall|p: int, q: int| 0 <= p < q < post.len() implies (#[trigger] post[p]).0 != (
    #[trigger] post[q]).0 by {
        assert(pre[p].0 != pre[q].0);
        if p == i {
            assert(post[q] == pre[q]);
        } else if q == i {
            assert(post[p] == pre[p]);
        }
    }
    assert forall|t: int| 0 <= t < pre.len() && (#[trigger] pre[t]).0 != address implies post[t]
        == pre[t] by {
        assert(t != i);
    }
    assert forall|t: int| 0 <= t < post.len() && (#[trigger] post[t]).0 != address implies post[t]
        == pre[t] by {
        assert(t != i);
    }
}

/// Appending an entry for an unknown address keeps addresses unique and
/// touches no earlier entry.
proof fn lemma_entry_pushed(
    pre: Seq<(PeerAddress, bool)>,
    post: Seq<(PeerAddress, bool)>,
    address: PeerAddress,
    state: bool,
)
    requires
        forall|p: int, q: int| 0 <= p < q < pre.len() ==> (#[trigger] pre[p]).0 != (
        #[trigger] pre[q]).0,
        forall|t: int| 0 <= t < pre.len() ==> (#[trigger] pre[t]).0 != address,
        post == pre.push((address, state)),
    ensures
        forall|p: int, q: int| 0 <= p < q < post.len() ==> (#[trigger] post[p]).0 != (
        #[trigger] post[q]).0,
        post.len() == pre.len() + 1,
        post[pre.len() as int] == (address, state),
        forall|t: int| 0 <= t < pre.len() ==> #[trigger] post[t] == pre[t],
{
    assert forall|p: int, q: int| 0 <= p < q < post.len() implies (#[trigger] post[p]).0 != (
    #[trigger] post[q]).0 by {
        if q == post.len() - 1 {
            assert(post[p] == pre[p]);
            assert(pre[p].0 != address);
        } else {
            assert(post[p] == pre[p] && post[q] == pre[q]);
        }
    }
}

} // verus!
