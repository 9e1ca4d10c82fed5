//! Fast bootstrapping of a libp2p Kademlia peer: the address handling, the
//! bootstrap decisions and the output formatting of the peer, with their
//! contracts.

pub mod address;
pub mod bootstrap;
pub mod identity;
pub mod log;
pub mod options;
pub mod peer;
pub mod saved_state;
pub mod text;
pub mod util;

pub use address::{IpAddr, Multiaddr, Protocol, ProtocolView};
pub use options::{Options, KAD_STATE_PATH};
pub use peer::{KademliaState, Peer};
pub use util::{extract_ip_multiaddr, ipaddr_to_multiaddr, is_private_ip, split_peer_id};
