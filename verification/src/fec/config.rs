//! Configuration of forward error correction.

use crate::fec::codec::code_supported;
use vstd::prelude::*;

verus! {

/// How blocks are made.
#[derive(Debug, Clone, Copy, PartialEq, Eq, Structural)]
pub struct FecConfig {
    /// Number of data shards per block.
    ///
    /// More data shards make larger blocks: more throughput, but a longer wait for the
    /// parity. Default: 3.
    pub data_shards: usize,
    /// Number of parity shards per block.
    ///
    /// With more of them more lost packets can be recovered, at the cost of bandwidth.
    /// Default: 1.
    pub parity_shards: usize,
}

impl Default for FecConfig {
    fn default() -> (config: FecConfig)
        ensures
            config == (FecConfig { data_shards: 3, parity_shards: 1 }),
    {
        FecConfig { data_shards: 3, parity_shards: 1 }
    }
}

impl FecConfig {
    /// A configuration with the given shard counts. There has to be at least one shard of
    /// each kind, and no more than 255 in all.
    pub fn new(data_shards: usize, parity_shards: usize) -> (config: FecConfig)
        requires
            data_shards > 0,
            parity_shards > 0,
            data_shards + parity_shards <= 255,
        ensures
            config == (FecConfig { data_shards, parity_shards }),
            code_supported(data_shards as nat, parity_shards as nat),
    {
        FecConfig { data_shards, parity_shards }
    }
}

} // verus!
