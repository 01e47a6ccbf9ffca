//! The shape of the noisy latent tensor and its attention mask, derived
//! from predicted durations (in samples) and the latent configuration.
//! Sampling the noise itself is the caller's job; this module fixes the
//! shape, the per-item latent lengths, and the mask.

use vstd::prelude::*;

use crate::vocab::{length_to_mask, seq_max};

verus! {

/// Ceiling division of non-negative `a` by positive `b`.
pub open spec fn ceil_div(a: int, b: int) -> int
    recommends
        a >= 0,
        b > 0,
{
    (a + b - 1) / b
}

/// The largest length is either zero or one of the lengths.
pub proof fn lemma_seq_max_bounds(s: Seq<usize>)
    ensures
        seq_max(s) >= 0,
        forall|i: int| 0 <= i < s.len() ==> s[i] <= seq_max(s),
        seq_max(s) == 0 || exists|i: int| 0 <= i < s.len() && s[i] == seq_max(s),
    decreases s.len(),
{
    if s.len() == 0 {
    } else {
        lemma_seq_max_bounds(s.drop_last());
        assert(forall|i: int| 0 <= i < s.len() - 1 ==> s[i] == s.drop_last()[i]);
        if seq_max(s) != 0 {
            if s.last() > seq_max(s.drop_last()) {
                assert(s[s.len() - 1] == seq_max(s));
            } else {
                let i = choose|i: int|
                    0 <= i < s.drop_last().len() && s.drop_last()[i] == seq_max(s.drop_last());
                assert(s[i] == seq_max(s));
            }
        }
    }
}

/// The shape of one sampled latent batch: its dimensions, the per-item
/// latent lengths, and the latent-level attention mask.
#[derive(Debug)]
pub struct LatentShape {
    pub bsz: usize,
    pub latent_dim: usize,
    pub latent_len: usize,
    pub latent_lengths: Vec<usize>,
    pub mask: Vec<Vec<u8>>,
}

/// Computes the latent shape for a batch of waveform lengths (samples):
/// the latent length is the longest waveform in chunks (rounded up), each
/// item's latent length is its own waveform in chunks, and the mask marks
/// the real latent positions.
pub fn noisy_latent_shape(wav_lengths: &Vec<usize>, chunk_size: usize, latent_dim_val: usize) -> (r:
    LatentShape)
    requires
        chunk_size > 0,
        forall|i: int| 0 <= i < wav_lengths@.len() ==> #[trigger] wav_lengths@[i] <= usize::MAX
            - chunk_size,
    ensures
        r.bsz == wav_lengths@.len(),
        r.latent_dim == latent_dim_val,
        r.latent_len == ceil_div(seq_max(wav_lengths@), chunk_size as int),
        r.latent_lengths@.len() == wav_lengths@.len(),
        forall|i: int|
            0 <= i < wav_lengths@.len() ==> #[trigger] r.latent_lengths@[i] == ceil_div(
                wav_lengths@[i] as int,
                chunk_size as int,
            ),
        r.mask.deep_view().len() == wav_lengths@.len(),
        forall|i: int|
            0 <= i < wav_lengths@.len() ==> (#[trigger] r.mask.deep_view()[i]).len()
                == r.latent_len,
        forall|i: int, j: int|
            0 <= i < wav_lengths@.len() && 0 <= j < r.latent_len ==> #[trigger] r.mask.deep_view(
            )[i][j] == (if j < r.latent_lengths@[i] {
                1u8
            } else {
                0u8
            }),
{
    proof {
        lemma_seq_max_bounds(wav_lengths@);
    }
    let max_wav = crate::vocab::seq_max_exec(wav_lengths);
    let latent_len = (max_wav + chunk_size - 1) / chunk_size;
    let mut latent_lengths: Vec<usize> = Vec::new();
    let mut i: usize = 0;
    while i < wav_lengths.len()
        invariant
            i <= wav_lengths@.len(),
            chunk_size > 0,
            forall|k: int| 0 <= k < wav_lengths@.len() ==> #[trigger] wav_lengths@[k] <= usize::MAX
                - chunk_size,
            latent_lengths@.len() == i,
            forall|k: int|
                0 <= k < i ==> #[trigger] latent_lengths@[k] == ceil_div(
                    wav_lengths@[k] as int,
                    chunk_size as int,
                ),
        decreases wav_lengths@.len() - i,
    {
        let w = wav_lengths[i];
        latent_lengths.push((w + chunk_size - 1) / chunk_size);
        i += 1;
    }
    let mask = length_to_mask(&latent_lengths, Some(latent_len));
    LatentShape {
        bsz: wav_lengths.len(),
        latent_dim: latent_dim_val,
        latent_len,
        latent_lengths,
        mask,
    }
}

} // verus!
