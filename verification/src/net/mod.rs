//! Host side of the guest's network: a virtual gateway that terminates the
//! guest's TCP connections and UDP flows and hands their data to an upstream.
//!
//! The guest exchanges Ethernet frames with its network card; the stack sits
//! at the other end of the cable. Deterministic: there is no host clock and no
//! unseeded randomness. Time comes as a parameter, the initial sequence numbers
//! derive from the configured seed. The same calls with the same arguments
//! produce the same frames and the same event log.
pub mod addr;
pub mod dhcp;
pub mod dhcp_laws;
pub mod dns;
pub mod events;
pub mod events_saved;
pub mod exchange_laws;
pub mod flows;
pub mod gateway;
pub mod host;
pub mod hostfwd;
pub mod names;
pub mod order_laws;
pub mod receive;
pub mod relay;
pub mod relay_laws;
pub mod run_laws;
pub mod segment_laws;
pub mod service_laws;
pub mod sinkhole;
pub mod sinkhole_laws;
pub mod sinkhole_saved;
pub mod stack;
pub mod stack_laws;
pub mod stack_saved;
pub mod tcp;
pub mod tcp_laws;
pub mod tcp_saved;
pub mod upstream;
pub mod wire;

pub use addr::{ConnId, Flow, Ipv4Addr, Mac, SocketAddrV4, VirtualTime};
pub use events::{CloseReason, DhcpMessage, Direction, EventKind, NetEvent};
pub use gateway::{NetConfig, Stats};
pub use hostfwd::{HostConnInfo, HostConnState};
pub use relay::{MemoryRelay, Relay, RelayMessage, RelayUpstream};
pub use sinkhole::{Sinkhole, SinkholeConfig, TcpReply};
pub use stack::Stack;
pub use upstream::{TcpRead, TcpStatus, Upstream};
