use vstd::prelude::*;

use crate::channel::SendError;
use crate::context::Context;
use crate::message::{frame, Message, MessageKind, MAX_PAYLOAD_LEN};
use crate::peer::PeerAddress;

verus! {

/// A peer is sent a broadcast exactly when the book records it as connected
/// and it is neither the excluded (originating) address nor the local node.
pub open spec fn eligible(pre: Context, excluded: PeerAddress, a: PeerAddress) -> bool {
    pre.peer_book.is_connected(a) && a != excluded && a != pre.local_address
}

/// No address appears twice.
pub open spec fn distinct_addresses(s: Seq<PeerAddress>) -> bool {
    forall|k1: int, k2: int| 0 <= k1 < k2 < s.len() ==> s[k1] != s[k2]
}

/// What one broadcast call does to the channel at index `j`: shape and
/// aliveness are untouched; the frame of the message is appended to the
/// outbox exactly when the peer is eligible and its channel alive, and the
/// outbox is untouched otherwise.
pub open spec fn channel_effect(
    pre: Context,
    post: Context,
    kind: MessageKind,
    payload: Seq<u8>,
    excluded: PeerAddress,
    j: int,
) -> bool {
    let c0 = pre.connections.channel_seq()[j];
    let c1 = post.connections.channel_seq()[j];
    &&& c1.address == c0.address
    &&& c1.alive == c0.alive
    &&& c1.inbox@ == c0.inbox@
    &&& (eligible(pre, excluded, c0.address) && c0.alive ==> c1.outbox@ == c0.outbox@ + frame(
        kind,
        payload,
    ))
    &&& (!(eligible(pre, excluded, c0.address) && c0.alive) ==> c1.outbox@ == c0.outbox@)
}

/// What one broadcast call does to the whole context: the local address and
/// the peer book are read, never written, and every channel shows
/// `channel_effect`.
pub open spec fn connections_effect(
    pre: Context,
    post: Context,
    kind: MessageKind,
    payload: Seq<u8>,
    excluded: PeerAddress,
) -> bool {
    &&& post.local_address == pre.local_address
    &&& post.peer_book == pre.peer_book
    &&& post.connections.channel_seq().len() == pre.connections.channel_seq().len()
    &&& forall|j: int|
        0 <= j < pre.connections.channel_seq().len() ==> #[trigger] channel_effect(
            pre,
            post,
            kind,
            payload,
            excluded,
            j,
        )
}

/// The address has an eligible channel in the map whose aliveness is `alive`.
pub open spec fn attempted(
    pre: Context,
    excluded: PeerAddress,
    a: PeerAddress,
    alive: bool,
) -> bool {
    exists|j: int|
        0 <= j < pre.connections.channel_seq().len() && (
        #[trigger] pre.connections.channel_seq()[j]).address == a && eligible(pre, excluded, a)
            && pre.connections.channel_seq()[j].alive == alive
}

/// What the report of one broadcast call says: `reached` holds exactly the
/// eligible peers whose channel was alive, `failed` exactly the eligible
/// peers whose channel was dead, each at most once. A connected peer without
/// a channel appears in neither: it was skipped.
pub open spec fn report_effect(
    pre: Context,
    excluded: PeerAddress,
    reached: Seq<PeerAddress>,
    failed: Seq<PeerAddress>,
) -> bool {
    &&& forall|j: int|
        0 <= j < pre.connections.channel_seq().len() && eligible(
            pre,
            excluded,
            (#[trigger] pre.connections.channel_seq()[j]).address,
        ) && pre.connections.channel_seq()[j].alive ==> reached.contains(
            pre.connections.channel_seq()[j].address,
        )
    &&& forall|j: int|
        0 <= j < pre.connections.channel_seq().len() && eligible(
            pre,
            excluded,
            (#[trigger] pre.connections.channel_seq()[j]).address,
        ) && !pre.connections.channel_seq()[j].alive ==> failed.contains(
            pre.connections.channel_seq()[j].address,
        )
    &&& forall|k: int|
        0 <= k < reached.len() ==> attempted(pre, excluded, #[trigger] reached[k], true)
    &&& forall|k: int|
        0 <= k < failed.len() ==> attempted(pre, excluded, #[trigger] failed[k], false)
    &&& distinct_addresses(reached)
    &&& distinct_addresses(failed)
}

/// The outcome of one broadcast call, for the caller's logs and metrics: the
/// peers whose channel took the frame, and the peers whose channel refused
/// it. A failed peer never fails the call itself.
#[derive(Debug)]
pub struct PropagationReport {
    pub reached: Vec<PeerAddress>,
    pub failed: Vec<PeerAddress>,
}

/// Membership in a pushed sequence.
proof fn lemma_push_contains(s: Seq<PeerAddress>, x: PeerAddress, y: PeerAddress)
    ensures
        s.push(x).contains(y) <==> (s.contains(y) || y == x),
{
    if s.push(x).contains(y) {
        let k = choose|k: int| 0 <= k < s.push(x).len() && s.push(x)[k] == y;
        if k < s.len() {
            assert(s[k] == y);
        }
    }
    if s.contains(y) {
        let k = choose|k: int| 0 <= k < s.len() && s[k] == y;
        assert(s.push(x)[k] == y);
    }
    assert(s.push(x)[s.len() as int] == x);
}

/// Fan one message out to every connected peer except the excluded address
/// and the local node, best effort: a peer that vanished from the connection
/// map since the snapshot is skipped, a peer whose channel refuses the write
/// is recorded in the report and does not stop the loop.
pub fn propagate(
    context: &mut Context,
    kind: MessageKind,
    payload: Vec<u8>,
    excluded: PeerAddress,
) -> (r: PropagationReport)
    requires
        old(context).wf(),
        payload@.len() <= MAX_PAYLOAD_LEN,
    ensures
        final(context).wf(),
        connections_effect(*old(context), *final(context), kind, payload@, excluded),
        report_effect(*old(context), excluded, r.reached@, r.failed@),
{
    let connected = context.peer_book.get_connected();
    let local_address = context.local_address;
    let ghost payload_view = payload@;
    let message = Message::new(kind, payload);
    let mut reached: Vec<PeerAddress> = Vec::new();
    let mut failed: Vec<PeerAddress> = Vec::new();
    let mut i: usize = 0;
    while i < connected.len()
        invariant
            context.wf(),
            context.local_address == old(context).local_address,
            context.peer_book == old(context).peer_book,
            local_address == old(context).local_address,
            message.kind == kind,
            message.payload@ == payload_view,
            message.wf(),
            i <= connected@.len(),
            forall|a: PeerAddress| #[trigger]
                connected@.contains(a) <==> old(context).peer_book.is_connected(a),
            distinct_addresses(connected@),
            context.connections.channel_seq().len() == old(
                context,
            ).connections.channel_seq().len(),
            forall|j: int|
                0 <= j < old(context).connections.channel_seq().len() ==> {
                    let c0 = #[trigger] old(context).connections.channel_seq()[j];
                    let c1 = context.connections.channel_seq()[j];
                    c1.address == c0.address && c1.alive == c0.alive && c1.inbox@ == c0.inbox@
                },
            forall|j: int|
                0 <= j < old(context).connections.channel_seq().len() && connected@.take(
                    i as int,
                ).contains((#[trigger] old(context).connections.channel_seq()[j]).address)
                    && eligible(
                    *old(context),
                    excluded,
                    old(context).connections.channel_seq()[j].address,
                ) && old(context).connections.channel_seq()[j].alive
                    ==> context.connections.channel_seq()[j].outbox@ == old(
                    context,
                ).connections.channel_seq()[j].outbox@ + frame(kind, payload_view),
            forall|j: int|
                0 <= j < old(context).connections.channel_seq().len() && !(connected@.take(
                    i as int,
                ).contains((#[trigger] old(context).connections.channel_seq()[j]).address)
                    && eligible(
                    *old(context),
                    excluded,
                    old(context).connections.channel_seq()[j].address,
                ) && old(context).connections.channel_seq()[j].alive)
                    ==> context.connections.channel_seq()[j].outbox@ == old(
                    context,
                ).connections.channel_seq()[j].outbox@,
            forall|j: int|
                0 <= j < old(context).connections.channel_seq().len() && connected@.take(
                    i as int,
                ).contains((#[trigger] old(context).connections.channel_seq()[j]).address)
                    && eligible(
                    *old(context),
                    excluded,
                    old(context).connections.channel_seq()[j].address,
                ) && old(context).connections.channel_seq()[j].alive ==> reached@.contains(
                    old(context).connections.channel_seq()[j].address,
                ),
            forall|j: int|
                0 <= j < old(context).connections.channel_seq().len() && connected@.take(
                    i as int,
                ).contains((#[trigger] old(context).connections.channel_seq()[j]).address)
                    && eligible(
                    *old(context),
                    excluded,
                    old(context).connections.channel_seq()[j].address,
                ) && !old(context).connections.channel_seq()[j].alive ==> failed@.contains(
                    old(context).connections.channel_seq()[j].address,
                ),
            forall|k: int|
                0 <= k < reached@.len() ==> attempted(
                    *old(context),
                    excluded,
                    #[trigger] reached@[k],
                    true,
                ) && connected@.take(i as int).contains(reached@[k]),
            forall|k: int|
                0 <= k < failed@.len() ==> attempted(
                    *old(context),
                    excluded,
                    #[trigger] failed@[k],
                    false,
                ) && connected@.take(i as int).contains(failed@[k]),
            distinct_addresses(reached@),
            distinct_addresses(failed@),
        decreases connected@.len() - i,
    {
        let peer = connected[i];
        let ghost take0 = connected@.take(i as int);
        let ghost take1 = connected@.take(i + 1);
        proof {
            assert(connected@[i as int] == peer);
            assert(take1 =~= take0.push(peer));
            assert forall|x: PeerAddress| #[trigger]
                take1.contains(x) == (take0.contains(x) || x == peer) by {
                lemma_push_contains(take0, peer, x);
            }
            assert(!take0.contains(peer)) by {
                if take0.contains(peer) {
                    let k = choose|k: int| 0 <= k < take0.len() && take0[k] == peer;
                    assert(connected@[k] == peer);
                    assert(connected@[k] != connected@[i as int]);
                }
            }
            assert(connected@.contains(peer)) by {
                assert(connected@[i as int] == peer);
            }
        }
        if peer != excluded && peer != local_address {
            proof {
                assert(eligible(*old(context), excluded, peer));
            }
            match context.connections.index_of(peer) {
                None => {
                    proof {
                        assert forall|j: int|
                            0 <= j < old(context).connections.channel_seq().len() implies (
                        #[trigger] old(context).connections.channel_seq()[j]).address != peer by {
                            if context.connections.channel_seq()[j].address == peer {
                                assert(context.connections.has_channel(peer));
                            }
                        }
                    }
                },
                Some(idx) => {
                    let ghost mid = context.connections.channel_seq();
                    let ghost c_old = old(context).connections.channel_seq()[idx as int];
                    proof {
                        assert(mid[idx as int].address == peer);
                        assert(c_old.address == peer);
                        assert(!(take0.contains(c_old.address) && eligible(
                            *old(context),
                            excluded,
                            c_old.address,
                        ) && c_old.alive));
                        assert(mid[idx as int].outbox@ == c_old.outbox@);
                        assert(mid[idx as int].alive == c_old.alive);
                        assert forall|j: int|
                            0 <= j < mid.len() && j != idx implies (
                        #[trigger] mid[j]).address != peer by {
                            assert(old(context).connections.channel_seq()[j].address == mid[
                                j
                            ].address);
                            if j < idx {
                                assert((context.connections.channel_seq()[j]).address != (
                                context.connections.channel_seq()[idx as int]).address);
                            } else {
                                assert((context.connections.channel_seq()[idx as int]).address
                                    != (context.connections.channel_seq()[j]).address);
                            }
                        }
                    }
                    let res = context.connections.write_at(idx, &message);
                    let ghost reached0 = reached@;
                    let ghost failed0 = failed@;
                    match res {
                        Ok(_) => {
                            reached.push(peer);
                            proof {
                                assert(c_old.alive);
                                assert(attempted(*old(context), excluded, peer, true)) by {
                                    assert((old(context).connections.channel_seq()[
                                        idx as int
                                    ]).address == peer);
                                }
                                assert forall|x: PeerAddress| #[trigger]
                                    reached@.contains(x) == (reached0.contains(x) || x
                                        == peer) by {
                                    lemma_push_contains(reached0, peer, x);
                                }
                                assert(!reached0.contains(peer));
                                assert(distinct_addresses(reached@)) by {
                                    assert forall|k1: int, k2: int|
                                        0 <= k1 < k2 < reached@.len() implies reached@[k1]
                                        != reached@[k2] by {
                                        if k2 == reached@.len() - 1 {
                                            assert(reached0[k1] == reached@[k1]);
                                            assert(reached0.contains(reached0[k1]));
                                        } else {
                                            assert(reached0[k1] == reached@[k1]);
                                            assert(reached0[k2] == reached@[k2]);
                                        }
                                    }
                                }
                            }
                        },
                        Err(_) => {
                            failed.push(peer);
                            proof {
                                assert(!c_old.alive);
                                assert(attempted(*old(context), excluded, peer, false)) by {
                                    assert((old(context).connections.channel_seq()[
                                        idx as int
                                    ]).address == peer);
                                }
                                assert forall|x: PeerAddress| #[trigger]
                                    failed@.contains(x) == (failed0.contains(x) || x == peer) by {
                                    lemma_push_contains(failed0, peer, x);
                                }
                                assert(!failed0.contains(peer));
                                assert(distinct_addresses(failed@)) by {
                                    assert forall|k1: int, k2: int|
                                        0 <= k1 < k2 < failed@.len() implies failed@[k1]
                                        != failed@[k2] by {
                                        if k2 == failed@.len() - 1 {
                                            assert(failed0[k1] == failed@[k1]);
                                            assert(failed0.contains(failed0[k1]));
                                        } else {
                                            assert(failed0[k1] == failed@[k1]);
                                            assert(failed0[k2] == failed@[k2]);
                                        }
                                    }
                                }
                            }
                        },
                    }
                },
            }
        } else {
            proof {
                assert(!eligible(*old(context), excluded, peer));
            }
        }
        i += 1;
    }
    proof {
        assert(connected@.take(connected@.len() as int) =~= connected@);
        assert forall|j: int|
            0 <= j < old(context).connections.channel_seq().len() implies
            #[trigger] channel_effect(
            *old(context),
            *context,
            kind,
            payload_view,
            excluded,
            j,
        ) by {
            let c0 = old(context).connections.channel_seq()[j];
            if eligible(*old(context), excluded, c0.address) {
                assert(old(context).peer_book.is_connected(c0.address));
                assert(connected@.contains(c0.address));
            }
        }
        assert forall|j: int|
            0 <= j < old(context).connections.channel_seq().len() && eligible(
                *old(context),
                excluded,
                (#[trigger] old(context).connections.channel_seq()[j]).address,
            ) && old(context).connections.channel_seq()[j].alive implies reached@.contains(
            old(context).connections.channel_seq()[j].address,
        ) by {
            let c0 = old(context).connections.channel_seq()[j];
            assert(old(context).peer_book.is_connected(c0.address));
            assert(connected@.contains(c0.address));
        }
        assert forall|j: int|
            0 <= j < old(context).connections.channel_seq().len() && eligible(
                *old(context),
                excluded,
                (#[trigger] old(context).connections.channel_seq()[j]).address,
            ) && !old(context).connections.channel_seq()[j].alive implies failed@.contains(
            old(context).connections.channel_seq()[j].address,
        ) by {
            let c0 = old(context).connections.channel_seq()[j];
            assert(old(context).peer_book.is_connected(c0.address));
            assert(connected@.contains(c0.address));
        }
    }
    PropagationReport { reached, failed }
}

/// Exclusion invariant: the peers a broadcast attempts (reached or failed)
/// are exactly the connected peers other than the excluded and local
/// addresses that held a channel in the connection map.
pub proof fn lemma_exclusion_invariant(
    pre: Context,
    excluded: PeerAddress,
    reached: Seq<PeerAddress>,
    failed: Seq<PeerAddress>,
    a: PeerAddress,
)
    requires
        report_effect(pre, excluded, reached, failed),
    ensures
        (reached.contains(a) || failed.contains(a)) <==> (eligible(pre, excluded, a)
            && pre.connections.has_channel(a)),
{
    if reached.contains(a) {
        let k = choose|k: int| 0 <= k < reached.len() && reached[k] == a;
        assert(attempted(pre, excluded, reached[k], true));
        let j = choose|j: int|
            0 <= j < pre.connections.channel_seq().len() && (
            #[trigger] pre.connections.channel_seq()[j]).address == a && eligible(
                pre,
                excluded,
                a,
            ) && pre.connections.channel_seq()[j].alive == true;
        assert(pre.connections.has_channel(a));
    }
    if failed.contains(a) {
        let k = choose|k: int| 0 <= k < failed.len() && failed[k] == a;
        assert(attempted(pre, excluded, failed[k], false));
        let j = choose|j: int|
            0 <= j < pre.connections.channel_seq().len() && (
            #[trigger] pre.connections.channel_seq()[j]).address == a && eligible(
                pre,
                excluded,
                a,
            ) && pre.connections.channel_seq()[j].alive == false;
        assert(pre.connections.has_channel(a));
    }
    if eligible(pre, excluded, a) && pre.connections.has_channel(a) {
        let j = choose|j: int|
            0 <= j < pre.connections.channel_seq().len() && (
            #[trigger] pre.connections.channel_seq()[j]).address == a;
        if pre.connections.channel_seq()[j].alive {
            assert(reached.contains(pre.connections.channel_seq()[j].address));
        } else {
            assert(failed.contains(pre.connections.channel_seq()[j].address));
        }
    }
}

/// Fault isolation: whatever the state of every other channel, an eligible
/// peer with a live channel takes the frame and is reported reached, and an
/// eligible peer with a dead channel keeps its outbox and is reported
/// failed. The call itself reports success either way (see the `ensures` of
/// `propagate_transaction` and `propagate_block`).
pub proof fn lemma_fault_isolation(
    pre: Context,
    post: Context,
    kind: MessageKind,
    payload: Seq<u8>,
    excluded: PeerAddress,
    reached: Seq<PeerAddress>,
    failed: Seq<PeerAddress>,
    j: int,
)
    requires
        connections_effect(pre, post, kind, payload, excluded),
        report_effect(pre, excluded, reached, failed),
        0 <= j < pre.connections.channel_seq().len(),
        eligible(pre, excluded, pre.connections.channel_seq()[j].address),
    ensures
        pre.connections.channel_seq()[j].alive ==> post.connections.channel_seq()[j].outbox@
            == pre.connections.channel_seq()[j].outbox@ + frame(kind, payload)
            && reached.contains(pre.connections.channel_seq()[j].address),
        !pre.connections.channel_seq()[j].alive ==> post.connections.channel_seq()[j].outbox@
            == pre.connections.channel_seq()[j].outbox@ && failed.contains(
            pre.connections.channel_seq()[j].address,
        ),
{
    assert(channel_effect(pre, post, kind, payload, excluded, j));
}

/// Snapshot consistency: a peer the book records as connected but whose
/// channel is gone from the connection map is skipped outright — it is
/// neither reached nor reported failed, and no channel of another peer is
/// affected on its account.
pub proof fn lemma_absent_channel_skipped(
    pre: Context,
    excluded: PeerAddress,
    reached: Seq<PeerAddress>,
    failed: Seq<PeerAddress>,
    a: PeerAddress,
)
    requires
        report_effect(pre, excluded, reached, failed),
        !pre.connections.has_channel(a),
    ensures
        !reached.contains(a),
        !failed.contains(a),
{
    lemma_exclusion_invariant(pre, excluded, reached, failed, a);
}

/// No self or sender delivery: neither the excluded (originating) address
/// nor the local node is ever written to or reported, even when both sit in
/// the connected set.
pub proof fn lemma_no_self_or_sender_delivery(
    pre: Context,
    post: Context,
    kind: MessageKind,
    payload: Seq<u8>,
    excluded: PeerAddress,
    reached: Seq<PeerAddress>,
    failed: Seq<PeerAddress>,
)
    requires
        connections_effect(pre, post, kind, payload, excluded),
        report_effect(pre, excluded, reached, failed),
    ensures
        !reached.contains(excluded),
        !reached.contains(pre.local_address),
        !failed.contains(excluded),
        !failed.contains(pre.local_address),
        forall|j: int|
            0 <= j < pre.connections.channel_seq().len() && ((
            #[trigger] pre.connections.channel_seq()[j]).address == excluded
                || pre.connections.channel_seq()[j].address == pre.local_address)
                ==> post.connections.channel_seq()[j].outbox@
                == pre.connections.channel_seq()[j].outbox@,
{
    lemma_exclusion_invariant(pre, excluded, reached, failed, excluded);
    lemma_exclusion_invariant(pre, excluded, reached, failed, pre.local_address);
    assert forall|j: int|
        0 <= j < pre.connections.channel_seq().len() && ((
        #[trigger] pre.connections.channel_seq()[j]).address == excluded
            || pre.connections.channel_seq()[j].address == pre.local_address) implies
        post.connections.channel_seq()[j].outbox@ == pre.connections.channel_seq()[j].outbox@ by {
        assert(channel_effect(pre, post, kind, payload, excluded, j));
        assert(!eligible(pre, excluded, pre.connections.channel_seq()[j].address));
    }
}

/// Broadcast a transaction to every connected peer but its sender and the
/// local node. Best effort: the call reports success whatever happened to the
/// individual sends.
pub fn propagate_transaction(
    context: &mut Context,
    transaction_bytes: Vec<u8>,
    transaction_sender: PeerAddress,
) -> (r: Result<(), SendError>)
    requires
        old(context).wf(),
        transaction_bytes@.len() <= MAX_PAYLOAD_LEN,
    ensures
        r == Ok::<(), SendError>(()),
        final(context).wf(),
        connections_effect(
            *old(context),
            *final(context),
            MessageKind::Transaction,
            transaction_bytes@,
            transaction_sender,
        ),
{
    let _report = propagate(context, MessageKind::Transaction, transaction_bytes, transaction_sender);
    Ok(())
}

/// Broadcast a block to every connected peer but its miner and the local
/// node. Best effort: the call reports success whatever happened to the
/// individual sends.
pub fn propagate_block(
    context: &mut Context,
    block_bytes: Vec<u8>,
    block_miner: PeerAddress,
) -> (r: Result<(), SendError>)
    requires
        old(context).wf(),
        block_bytes@.len() <= MAX_PAYLOAD_LEN,
    ensures
        r == Ok::<(), SendError>(()),
        final(context).wf(),
        connections_effect(
            *old(context),
            *final(context),
            MessageKind::Block,
            block_bytes@,
            block_miner,
        ),
{
    let _report = propagate(context, MessageKind::Block, block_bytes, block_miner);
    Ok(())
}

} // verus!
