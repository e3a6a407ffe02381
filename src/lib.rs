//! Ethernet-over-UDP overlay: the switching and membership engine, its soft-state
//! tables and the on-wire framing, as verified code.

pub mod types;
pub mod table;
pub mod peers;
pub mod mactable;
pub mod bytes;
pub mod ethernet;
pub mod udpmessage;
pub mod ethcloud;
pub mod clock;

pub use types::{Error, IpAddr, Mac, PeerAddr, Token};
pub use ethcloud::{EthCloud, Outbound, Reaction};
pub use ethernet::EthernetFrame;
pub use udpmessage::Message;
