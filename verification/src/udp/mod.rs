//! Links over UDP datagrams.
//!
//! There is no reliability and no order on a link of its own: it exposes datagrams, and the
//! layer above sequences, acknowledges, reorders and retransmits across all links.

pub mod connector;
pub mod frame;
pub mod listener;
pub mod session;

pub use crate::net::IpVersion;
pub use connector::{UdpAcceptor, UdpConnector, UdpLinkFilter, UdpLinkTag};
