//! Peer-to-peer broadcast layer of a blockchain node.
//!
//! The crate frames typed messages for a stream transport, tracks which peers
//! are currently connected, and fans newly observed transactions and blocks
//! out to every connected peer except the originator and the local node,
//! absorbing per-peer send failures so one unreachable peer cannot abort a
//! broadcast.

pub mod channel;
pub mod connections;
pub mod context;
pub mod message;
pub mod peer;
pub mod peer_book;
pub mod propagate;

pub use channel::{Channel, ReceiveError, SendError};
pub use connections::Connections;
pub use context::Context;
pub use message::{FramingError, Message, MessageKind, MAX_PAYLOAD_LEN};
pub use peer::PeerAddress;
pub use peer_book::PeerBook;
pub use propagate::{propagate, propagate_block, propagate_transaction, PropagationReport};
