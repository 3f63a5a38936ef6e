//! An engine.io (protocol v4) client core: the packet framing, the socket's
//! connection state machine, the client's reaction to received packets and the
//! builder's handshake and transport decisions, each stated and proved.
//! Transports, callbacks and threads are driven by the caller.
pub mod error;
pub mod packet;
pub mod socket;
pub mod client;
pub mod builder;

pub use error::Error;
pub use packet::{HandshakePacket, Packet, PacketId};
pub use socket::{Effect, PollStep, Step, StepRun, V4Socket};
pub use client::Client;
pub use builder::{ClientBuilder, Fallback, TransportPlan};
