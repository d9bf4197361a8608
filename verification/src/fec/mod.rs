//! Forward error correction for datagrams.
//!
//! Outgoing datagrams are grouped into blocks of `data_shards` datagrams, and to each
//! block `parity_shards` packets of Reed-Solomon parity are added. Every packet carries
//! a header of nine bytes:
//!
//! ```text
//! [block_id: u32][shard_index: u8][shard_count: u8][parity_count: u8][payload_len: u16][payload...]
//! ```
//!
//! Once any `data_shards` packets of a block have arrived, its datagrams are delivered
//! in the order in which they were sent.

pub mod block;
pub mod codec;
pub mod config;
pub mod decoder;
pub mod encoder;
pub mod laws;
pub mod transport;

pub use config::FecConfig;
pub use transport::{flush_fec_encoder, FecTransport};
