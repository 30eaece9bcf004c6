use snarkos_network::{Channel, Connections, Context, PeerAddress, PeerBook};

fn addr(n: u32) -> PeerAddress {
    PeerAddress::new(n, 4130)
}

#[test]
fn new_book_has_no_connected_peers() {
    let book = PeerBook::new();
    assert!(book.get_connected().is_empty());
}

#[test]
fn mark_connected_appears_in_snapshot() {
    let mut book = PeerBook::new();
    book.mark_connected(addr(1));
    book.mark_connected(addr(2));
    let connected = book.get_connected();
    assert_eq!(connected.len(), 2);
    assert!(connected.contains(&addr(1)));
    assert!(connected.contains(&addr(2)));
}

#[test]
fn mark_connected_is_idempotent() {
    let mut book = PeerBook::new();
    book.mark_connected(addr(1));
    book.mark_connected(addr(1));
    assert_eq!(book.get_connected(), vec![addr(1)]);
}

#[test]
fn mark_disconnected_leaves_snapshot() {
    let mut book = PeerBook::new();
    book.mark_connected(addr(1));
    book.mark_connected(addr(2));
    book.mark_disconnected(addr(1));
    assert_eq!(book.get_connected(), vec![addr(2)]);
    // Reconnection brings the address back.
    book.mark_connected(addr(1));
    let connected = book.get_connected();
    assert_eq!(connected.len(), 2);
    assert!(connected.contains(&addr(1)));
}

#[test]
fn mark_disconnected_unknown_is_noop() {
    let mut book = PeerBook::new();
    book.mark_connected(addr(1));
    book.mark_disconnected(addr(9));
    assert_eq!(book.get_connected(), vec![addr(1)]);
}

#[test]
fn snapshot_has_no_duplicates() {
    let mut book = PeerBook::new();
    for _ in 0..3 {
        book.mark_connected(addr(1));
        book.mark_connected(addr(2));
    }
    let connected = book.get_connected();
    assert_eq!(connected.len(), 2);
}

#[test]
fn book_check_wf_holds() {
    let mut book = PeerBook::new();
    book.mark_connected(addr(1));
    book.mark_disconnected(addr(1));
    book.mark_connected(addr(2));
    assert!(book.check_wf());
}

#[test]
fn connections_insert_contains_remove() {
    let mut conns = Connections::new();
    assert_eq!(conns.len(), 0);
    assert!(!conns.contains(addr(1)));
    conns.insert(Channel::new(addr(1)));
    conns.insert(Channel::new(addr(2)));
    assert_eq!(conns.len(), 2);
    assert!(conns.contains(addr(1)));
    assert!(conns.contains(addr(2)));
    let removed = conns.remove(addr(1)).unwrap();
    assert_eq!(removed.address, addr(1));
    assert!(!conns.contains(addr(1)));
    assert_eq!(conns.len(), 1);
    assert!(conns.remove(addr(9)).is_none());
}

#[test]
fn context_new_is_well_formed() {
    let ctx = Context::new(addr(7));
    assert_eq!(ctx.local_address, addr(7));
    assert!(ctx.check_wf());
    assert!(ctx.peer_book.get_connected().is_empty());
    assert_eq!(ctx.connections.len(), 0);
}
