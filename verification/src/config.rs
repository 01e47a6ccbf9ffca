//! Pipeline configuration: audio and latent-tensor parameters, loaded once
//! at startup and validated before any synthesis runs.

use vstd::prelude::*;

verus! {

/// Audio configuration: output sample rate and the base chunk size of the
/// audio codec.
#[derive(Clone, Copy, Debug, PartialEq, Eq, Structural)]
pub struct AEConfig {
    pub sample_rate: i32,
    pub base_chunk_size: i32,
}

/// Latent-tensor configuration: the compression factor and the latent
/// dimension.
#[derive(Clone, Copy, Debug, PartialEq, Eq, Structural)]
pub struct TTLConfig {
    pub chunk_compress_factor: i32,
    pub latent_dim: i32,
}

/// The whole pipeline configuration.
#[derive(Clone, Copy, Debug, PartialEq, Eq, Structural)]
pub struct Config {
    pub ae: AEConfig,
    pub ttl: TTLConfig,
}

impl Config {
    /// A usable configuration: every parameter strictly positive.
    pub open spec fn wf(self) -> bool {
        &&& self.ae.sample_rate > 0
        &&& self.ae.base_chunk_size > 0
        &&& self.ttl.chunk_compress_factor > 0
        &&& self.ttl.latent_dim > 0
    }

    /// Checks that every parameter is strictly positive.
    pub fn validate(&self) -> (r: bool)
        ensures
            r == self.wf(),
    {
        self.ae.sample_rate > 0 && self.ae.base_chunk_size > 0 && self.ttl.chunk_compress_factor > 0
            && self.ttl.latent_dim > 0
    }
}

} // verus!
