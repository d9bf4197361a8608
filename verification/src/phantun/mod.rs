//! Datagrams dressed up as TCP.
//!
//! A minimal fake-TCP stack in user space, on top of a TUN interface. Packets look like TCP
//! to firewalls and address translators, but there is no retransmission and no flow control:
//! each segment with a payload is one datagram.

pub mod checksum;
pub mod config;
pub mod multi;
pub mod packet;
pub mod socket;
pub mod stack;
pub mod transport;

pub use config::PhantunConfig;
pub use multi::PhantunMultiStack;
pub use transport::{PhantunClientStack, PhantunClientTransport, PhantunServerTransport};
