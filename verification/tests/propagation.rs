use snarkos_network::{
    propagate, propagate_block, propagate_transaction, Channel, Context, Message, MessageKind,
    PeerAddress,
};

fn addr(n: u32) -> PeerAddress {
    PeerAddress::new(n, 4130)
}

/// A context whose book records every listed peer as connected; each peer
/// paired with `true` gets a live channel, with `false` a closed one, and
/// `None`-like omission is expressed by not listing a channel at all.
fn context_with(local: PeerAddress, connected: &[PeerAddress], channels: &[(PeerAddress, bool)]) -> Context {
    let mut ctx = Context::new(local);
    for peer in connected {
        ctx.peer_book.mark_connected(*peer);
    }
    for (peer, alive) in channels {
        let mut ch = Channel::new(*peer);
        if !alive {
            ch.close();
        }
        ctx.connections.insert(ch);
    }
    ctx
}

fn outbox_of(ctx: &Context, peer: PeerAddress) -> Vec<u8> {
    ctx.connections.get(peer).unwrap().outbox.clone()
}

fn transaction_frame(payload: &[u8]) -> Vec<u8> {
    Message::new(MessageKind::Transaction, payload.to_vec()).serialize()
}

#[test]
fn only_the_third_peer_receives() {
    // connected = {a, b, c}, sender = b, local = a: only c receives.
    let (a, b, c) = (addr(1), addr(2), addr(3));
    let mut ctx = context_with(a, &[a, b, c], &[(a, true), (b, true), (c, true)]);
    let payload = vec![0xDE, 0xAD];
    assert_eq!(propagate_transaction(&mut ctx, payload.clone(), b), Ok(()));
    assert_eq!(outbox_of(&ctx, c), transaction_frame(&payload));
    assert!(outbox_of(&ctx, a).is_empty());
    assert!(outbox_of(&ctx, b).is_empty());
}

#[test]
fn unconnected_sender_is_a_noop_exclusion() {
    // connected = {a, b}, sender = z (not connected), local = a: b receives.
    let (a, b, z) = (addr(1), addr(2), addr(9));
    let mut ctx = context_with(a, &[a, b], &[(a, true), (b, true)]);
    let payload = vec![7];
    assert_eq!(propagate_transaction(&mut ctx, payload.clone(), z), Ok(()));
    assert_eq!(outbox_of(&ctx, b), transaction_frame(&payload));
    assert!(outbox_of(&ctx, a).is_empty());
}

#[test]
fn failed_write_is_absorbed() {
    // connected = {a, b}, b's channel refuses the write: the call still
    // succeeds, a receives the message, and the report names b as failed.
    let (a, b, local, sender) = (addr(1), addr(2), addr(8), addr(9));
    let mut ctx = context_with(local, &[a, b], &[(a, true), (b, false)]);
    let payload = vec![1, 2, 3];
    let report = propagate(&mut ctx, MessageKind::Transaction, payload.clone(), sender);
    assert_eq!(report.reached, vec![a]);
    assert_eq!(report.failed, vec![b]);
    assert_eq!(outbox_of(&ctx, a), transaction_frame(&payload));
    assert!(outbox_of(&ctx, b).is_empty());
}

#[test]
fn failed_write_still_returns_ok() {
    let (a, b, local, sender) = (addr(1), addr(2), addr(8), addr(9));
    let mut ctx = context_with(local, &[a, b], &[(a, true), (b, false)]);
    assert_eq!(propagate_block(&mut ctx, vec![4, 5], sender), Ok(()));
    let expected = Message::new(MessageKind::Block, vec![4, 5]).serialize();
    assert_eq!(outbox_of(&ctx, a), expected);
}

#[test]
fn fault_isolation_over_a_failing_subset() {
    // Two dead channels among four: both live peers are still reached.
    let (a, b, c, d) = (addr(1), addr(2), addr(3), addr(4));
    let (local, sender) = (addr(8), addr(9));
    let mut ctx = context_with(
        local,
        &[a, b, c, d],
        &[(a, true), (b, false), (c, true), (d, false)],
    );
    let payload = vec![0x42];
    let report = propagate(&mut ctx, MessageKind::Transaction, payload.clone(), sender);
    let mut reached = report.reached.clone();
    reached.sort();
    let mut failed = report.failed.clone();
    failed.sort();
    assert_eq!(reached, vec![a, c]);
    assert_eq!(failed, vec![b, d]);
    assert_eq!(outbox_of(&ctx, a), transaction_frame(&payload));
    assert_eq!(outbox_of(&ctx, c), transaction_frame(&payload));
    assert!(outbox_of(&ctx, b).is_empty());
    assert!(outbox_of(&ctx, d).is_empty());
}

#[test]
fn missing_channel_is_skipped() {
    // a stays in the connected snapshot but has no channel any more: the
    // broadcast skips it without failing, and does not report it either way.
    let (a, b) = (addr(1), addr(2));
    let (local, sender) = (addr(8), addr(9));
    let mut ctx = context_with(local, &[a, b], &[(b, true)]);
    let payload = vec![6];
    let report = propagate(&mut ctx, MessageKind::Transaction, payload.clone(), sender);
    assert_eq!(report.reached, vec![b]);
    assert!(report.failed.is_empty());
    assert_eq!(outbox_of(&ctx, b), transaction_frame(&payload));
}

#[test]
fn removal_from_the_map_is_tolerated() {
    // The same skip, after an explicit removal from the map.
    let (a, b) = (addr(1), addr(2));
    let (local, sender) = (addr(8), addr(9));
    let mut ctx = context_with(local, &[a, b], &[(a, true), (b, true)]);
    ctx.connections.remove(a);
    let payload = vec![6, 7];
    let report = propagate(&mut ctx, MessageKind::Transaction, payload.clone(), sender);
    assert_eq!(report.reached, vec![b]);
    assert!(report.failed.is_empty());
}

#[test]
fn sender_equal_to_local_excludes_once() {
    let (a, b) = (addr(1), addr(2));
    let mut ctx = context_with(a, &[a, b], &[(a, true), (b, true)]);
    let payload = vec![3];
    assert_eq!(propagate_transaction(&mut ctx, payload.clone(), a), Ok(()));
    assert_eq!(outbox_of(&ctx, b), transaction_frame(&payload));
    assert!(outbox_of(&ctx, a).is_empty());
}

#[test]
fn no_peers_is_a_successful_noop() {
    let mut ctx = Context::new(addr(1));
    let report = propagate(&mut ctx, MessageKind::Block, vec![1], addr(9));
    assert!(report.reached.is_empty());
    assert!(report.failed.is_empty());
    assert_eq!(propagate_block(&mut ctx, vec![1], addr(9)), Ok(()));
}

#[test]
fn block_broadcast_uses_the_block_tag() {
    let (a, local, miner) = (addr(1), addr(8), addr(9));
    let mut ctx = context_with(local, &[a], &[(a, true)]);
    assert_eq!(propagate_block(&mut ctx, vec![0xCC], miner), Ok(()));
    let outbox = outbox_of(&ctx, a);
    assert_eq!(outbox, vec![2, 0, 0, 0, 1, 0xCC]);
}

#[test]
fn disconnected_peer_left_out_of_snapshot_keeps_channel_silent() {
    // b is marked disconnected but its channel is still in the map: the
    // snapshot no longer lists it, so nothing is written to it.
    let (a, b) = (addr(1), addr(2));
    let (local, sender) = (addr(8), addr(9));
    let mut ctx = context_with(local, &[a, b], &[(a, true), (b, true)]);
    ctx.peer_book.mark_disconnected(b);
    let payload = vec![9];
    let report = propagate(&mut ctx, MessageKind::Transaction, payload.clone(), sender);
    assert_eq!(report.reached, vec![a]);
    assert!(report.failed.is_empty());
    assert!(outbox_of(&ctx, b).is_empty());
}
