//! Fragmentation and reassembly of routing messages sent over UDP: a routing
//! message is cut into numbered fragments that fit in datagrams, and each peer
//! reassembles them in a small window of messages in flight, without
//! retransmission.
use vstd::prelude::*;

pub mod commands;
pub mod peer_pending_routing_message_storage;
pub mod pending_message;
pub mod reassembly_laws;
pub mod routing_number;
pub mod transport_message;
pub mod transport_messages_iterator;

pub use commands::{
    CredentialCommand, CredentialSubcommand, DeleteCommand, TcpListenerCommand,
    TcpListenerSubCommand,
};
pub use peer_pending_routing_message_storage::PeerPendingRoutingMessageStorage;
pub use pending_message::{PendingMessage, PendingMessageState};
pub use routing_number::RoutingNumber;
pub use transport_message::UdpTransportMessage;
pub use transport_messages_iterator::{TransportError, TransportMessagesIterator};

verus! {

/// Largest routing message, once encoded, that can be sent: 16 MiB.
pub const MAX_MESSAGE_SIZE: usize = 16 * 1024 * 1024;

/// Largest payload of one fragment: with its header, a fragment then fits in the
/// 508 bytes of a datagram that no network on the way has to split.
pub const MAX_PAYLOAD_SIZE: usize = 508 - 15;

} // verus!
