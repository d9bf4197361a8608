//! Datagram transports: session framing over UDP, forward error correction, and UDP
//! dressed up as TCP.

pub mod addr;
pub mod error;
pub mod fec;
pub mod io;
pub mod kcp;
pub mod link;
pub mod net;
pub mod phantun;
pub mod text;
pub mod udp;
pub mod vec_map;
pub mod wire;
