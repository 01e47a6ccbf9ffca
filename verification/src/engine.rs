//! The inference orchestrator, as a state machine.  One synthesis request
//! is a session: the text is chunked and encoded up front, and the session
//! then tells its driver which stage to run next — duration prediction,
//! text encoding, latent sampling, one vector-estimation step at a time in
//! strict order, and vocoding — and consumes each stage's result as a plain
//! value.  The tensors themselves stay with the driver; the session tracks
//! durations in samples, trims and assembles the waveforms, and turns any
//! stage failure into a typed error.

use vstd::prelude::*;

use crate::audio::{assemble, assembled, total_duration};
use crate::chunk::chunk_text;
use crate::config::Config;
use crate::errors::{StageKind, TtsError};
use crate::lang::{is_supported_lang, max_chunk_len};
use crate::latent::ceil_div;
use crate::textnorm::{normalize_text_spec, trim_ws};
use crate::textutil::str_to_string;
use crate::vocab::{token_of, UnicodeProcessor};

use vstd::string::StrSliceExecFns;

verus! {

/// Synthesis speed as an exact ratio: `num / den` (greater than one plays
/// faster and shortens the audio).
#[derive(Clone, Copy, Debug, PartialEq, Eq, Structural)]
pub struct SpeedRatio {
    pub num: u32,
    pub den: u32,
}

impl SpeedRatio {
    /// A usable speed: strictly positive.
    pub open spec fn wf(self) -> bool {
        self.num > 0 && self.den > 0
    }
}

/// A predicted duration in samples, divided by the speed (rounded down).
pub open spec fn scaled_duration(d: u64, sp: SpeedRatio) -> int {
    (d * sp.den) / (sp.num as int)
}

/// Doubling the speed halves every scaled duration (to sample precision):
/// what the duration-prediction stage hands over is divided by twice the
/// ratio, which equals half the once-divided value.
pub proof fn lemma_speed_doubling(d: u64, sp: SpeedRatio)
    requires
        sp.wf(),
        2 * sp.num <= u32::MAX,
    ensures
        scaled_duration(d, SpeedRatio { num: (2 * sp.num) as u32, den: sp.den }) == scaled_duration(
            d,
            sp,
        ) / 2,
{
    let x = d * sp.den;
    vstd::arithmetic::div_mod::lemma_div_denominator(x as int, sp.num as int, 2);
    assert(sp.num * 2 == 2 * sp.num) by (nonlinear_arith);
}

/// The context built once at startup: the validated configuration, the
/// unicode index table, and the derived latent parameters.
pub struct PipelineContext {
    pub cfg: Config,
    pub processor: UnicodeProcessor,
    pub chunk_size: usize,
    pub latent_dim_val: usize,
}

impl PipelineContext {
    /// A usable context: the configuration is valid and the derived
    /// parameters match it.
    pub open spec fn wf(self) -> bool {
        &&& self.cfg.wf()
        &&& self.chunk_size == self.cfg.ae.base_chunk_size * self.cfg.ttl.chunk_compress_factor
        &&& self.latent_dim_val == self.cfg.ttl.latent_dim * self.cfg.ttl.chunk_compress_factor
        &&& self.chunk_size > 0
    }

    /// Builds the context, validating the configuration.  Fails with
    /// `ConfigLoadError` if and only if some parameter is not positive or a
    /// derived product does not fit the machine word.
    pub fn new(cfg: Config, processor: UnicodeProcessor) -> (r: Result<Self, TtsError>)
        ensures
            r is Ok <==> (cfg.wf() && cfg.ae.base_chunk_size * cfg.ttl.chunk_compress_factor
                <= usize::MAX && cfg.ttl.latent_dim * cfg.ttl.chunk_compress_factor
                <= usize::MAX),
            r matches Err(e) ==> e == TtsError::ConfigLoadError,
            r matches Ok(c) ==> c.wf() && c.cfg == cfg && c.processor.indexer
                == processor.indexer,
    {
        if !cfg.validate() {
            return Err(TtsError::ConfigLoadError);
        }
        let base = cfg.ae.base_chunk_size as u64;
        let compress = cfg.ttl.chunk_compress_factor as u64;
        let ldim = cfg.ttl.latent_dim as u64;
        proof {
            assert(base * compress <= 0x8000_0000u64 * 0x8000_0000u64) by (nonlinear_arith)
                requires
                    base <= 0x8000_0000u64,
                    compress <= 0x8000_0000u64,
            ;
            assert(ldim * compress <= 0x8000_0000u64 * 0x8000_0000u64) by (nonlinear_arith)
                requires
                    ldim <= 0x8000_0000u64,
                    compress <= 0x8000_0000u64,
            ;
        }
        let chunk_u64 = base * compress;
        let ldim_u64 = ldim * compress;
        proof {
            assert(chunk_u64 == cfg.ae.base_chunk_size * cfg.ttl.chunk_compress_factor);
            assert(ldim_u64 == cfg.ttl.latent_dim * cfg.ttl.chunk_compress_factor);
        }
        if chunk_u64 > (usize::MAX as u64) || ldim_u64 > (usize::MAX as u64) {
            return Err(TtsError::ConfigLoadError);
        }
        let chunk_size = chunk_u64 as usize;
        let latent_dim_val = ldim_u64 as usize;
        proof {
            assert(chunk_size > 0) by (nonlinear_arith)
                requires
                    chunk_size == base * compress,
                    base > 0,
                    compress > 0,
            ;
        }
        Ok(PipelineContext { cfg, processor, chunk_size, latent_dim_val })
    }
}

/// Where one session stands inside the current chunk's stage sequence.
#[derive(Clone, Copy, Debug, PartialEq, Eq, Structural)]
pub enum Phase {
    /// Waiting for the duration-prediction result.
    NeedDuration,
    /// Waiting for the text-encoding result.
    NeedEncoding,
    /// Waiting for the sampled noisy latent.
    NeedLatent,
    /// Waiting for the result of the vector-estimation step it carries.
    Denoise(usize),
    /// Waiting for the vocoder's waveform.
    NeedVocode,
    /// Finished, successfully or not.
    Done,
}

/// What the driver must run next.
#[derive(Clone, Copy, Debug, PartialEq, Eq, Structural)]
pub enum SynthesisAction {
    /// Run the duration predictor on the chunk's token ids and text mask.
    PredictDuration { chunk: usize },
    /// Run the text encoder on the chunk's token ids and text mask.
    EncodeText { chunk: usize },
    /// Sample a standard-normal latent of the given shape, masked to the
    /// given length.
    SampleLatent { latent_dim: usize, latent_len: usize },
    /// Run one vector-estimation step: strictly in order, each step feeding
    /// the next.
    EstimateVector { step: usize, total_steps: usize },
    /// Run the vocoder on the final latent.
    Vocode { chunk: usize },
    /// Nothing is left to run.
    Finished,
}

/// What the driver hands back after running a stage.
pub enum SynthesisEvent<T> {
    /// The predicted duration, in samples at unit speed, rounded to the
    /// nearest sample.
    DurationReady { duration_samples: u64 },
    /// The text embedding is ready (it stays with the driver).
    TextEncoded,
    /// The noisy latent was sampled (it stays with the driver).
    LatentReady,
    /// One vector-estimation step replaced the latent with its output.
    VectorEstimated,
    /// The vocoder produced this chunk's raw waveform samples.
    WaveformReady { samples: Vec<T> },
    /// The stage failed; the whole call aborts.
    StageFailed { stage: StageKind },
}

/// One synthesis request in flight: the chunked, encoded text and the
/// progress through the per-chunk stage sequence.
pub struct SynthesisSession<T> {
    /// The text's chunks, in order.
    pub chunks: Vec<String>,
    /// One id row per chunk (a batch of one: no padding).
    pub token_ids: Vec<Vec<i64>>,
    /// The configured output sample rate.
    pub sample_rate: usize,
    /// Latent chunk size: base chunk size times compression factor.
    pub chunk_size: usize,
    /// Latent dimension times compression factor.
    pub latent_dim_val: usize,
    /// Number of denoising steps (zero is legal: noise goes straight to
    /// the vocoder).
    pub total_steps: usize,
    /// The speed ratio applied to every predicted duration.
    pub speed: SpeedRatio,
    /// Silence inserted between consecutive chunks, in samples.
    pub silence_len: usize,
    /// Where the current chunk stands.
    pub phase: Phase,
    /// The latent length of the current chunk, valid from `NeedLatent` on.
    pub cur_latent_len: usize,
    /// Scaled durations, one per chunk that reached duration prediction.
    pub durations: Vec<usize>,
    /// Raw waveforms, one per completed chunk.
    pub wavs: Vec<Vec<T>>,
    /// The failure that ended the session, if one did.
    pub failed: Option<StageKind>,
}

impl<T: Copy> SynthesisSession<T> {
    /// A consistent session.
    pub open spec fn wf(self) -> bool {
        &&& self.chunks@.len() >= 1
        &&& self.token_ids@.len() == self.chunks@.len()
        &&& self.speed.wf()
        &&& self.chunk_size > 0
        &&& total_duration(self.durations@, self.silence_len as int) <= usize::MAX
        &&& match self.phase {
            Phase::NeedDuration => {
                &&& self.durations@.len() == self.wavs@.len()
                &&& self.wavs@.len() < self.chunks@.len()
                &&& self.failed is None
            },
            Phase::NeedEncoding => {
                &&& self.durations@.len() == self.wavs@.len() + 1
                &&& self.wavs@.len() < self.chunks@.len()
                &&& self.failed is None
                &&& self.durations@.last() <= usize::MAX - self.chunk_size
            },
            Phase::NeedLatent => {
                &&& self.durations@.len() == self.wavs@.len() + 1
                &&& self.wavs@.len() < self.chunks@.len()
                &&& self.failed is None
                &&& self.durations@.last() <= usize::MAX - self.chunk_size
                &&& self.cur_latent_len == ceil_div(
                    self.durations@.last() as int,
                    self.chunk_size as int,
                )
            },
            Phase::Denoise(i) => {
                &&& self.durations@.len() == self.wavs@.len() + 1
                &&& self.wavs@.len() < self.chunks@.len()
                &&& self.failed is None
                &&& i < self.total_steps
            },
            Phase::NeedVocode => {
                &&& self.durations@.len() == self.wavs@.len() + 1
                &&& self.wavs@.len() < self.chunks@.len()
                &&& self.failed is None
            },
            Phase::Done => self.failed is None ==> self.durations@.len() == self.wavs@.len(),
        }
    }

    /// Whether the session has ended.
    pub open spec fn spec_done(self) -> bool {
        self.phase == Phase::Done
    }

    /// The action a driver must run next, as a function of the state.
    pub open spec fn spec_action(self) -> SynthesisAction {
        match self.phase {
            Phase::NeedDuration => SynthesisAction::PredictDuration { chunk: self.wavs@.len() as usize },
            Phase::NeedEncoding => SynthesisAction::EncodeText { chunk: self.wavs@.len() as usize },
            Phase::NeedLatent => SynthesisAction::SampleLatent {
                latent_dim: self.latent_dim_val,
                latent_len: self.cur_latent_len,
            },
            Phase::Denoise(i) => SynthesisAction::EstimateVector {
                step: i,
                total_steps: self.total_steps,
            },
            Phase::NeedVocode => SynthesisAction::Vocode { chunk: self.wavs@.len() as usize },
            Phase::Done => SynthesisAction::Finished,
        }
    }

    /// Whether an event is the one the current phase waits for.
    pub open spec fn spec_expects(self, ev: SynthesisEvent<T>) -> bool {
        match ev {
            SynthesisEvent::DurationReady { .. } => self.phase == Phase::NeedDuration,
            SynthesisEvent::TextEncoded => self.phase == Phase::NeedEncoding,
            SynthesisEvent::LatentReady => self.phase == Phase::NeedLatent,
            SynthesisEvent::VectorEstimated => self.phase matches Phase::Denoise(_),
            SynthesisEvent::WaveformReady { .. } => self.phase == Phase::NeedVocode,
            SynthesisEvent::StageFailed { .. } => self.phase != Phase::Done,
        }
    }

    /// Creates a session: validates the speed and the language, chunks the
    /// text with the language's bound, and encodes every chunk.  An empty
    /// (or all-whitespace) text completes immediately with no audio and no
    /// stage calls.
    pub fn new(
        ctx: &PipelineContext,
        text: &str,
        lang: &str,
        total_steps: usize,
        speed: SpeedRatio,
        silence_len: usize,
    ) -> (r: Result<Self, TtsError>)
        requires
            ctx.wf(),
        ensures
            r is Err <==> (!speed.wf() || !is_supported_lang(lang@)),
            !speed.wf() ==> r == Result::<Self, TtsError>::Err(TtsError::InvalidParameter),
            speed.wf() && !is_supported_lang(lang@) ==> r == Result::<Self, TtsError>::Err(
                TtsError::InvalidLanguage,
            ),
            r matches Ok(s) ==> {
                &&& s.wf()
                &&& s.total_steps == total_steps
                &&& s.speed == speed
                &&& s.silence_len == silence_len
                &&& s.chunk_size == ctx.chunk_size
                &&& s.latent_dim_val == ctx.latent_dim_val
                &&& s.sample_rate == ctx.cfg.ae.sample_rate
                &&& s.durations@.len() == 0
                &&& s.wavs@.len() == 0
                &&& s.failed is None
                &&& s.chunks@.len() >= 1
                &&& s.chunks.deep_view() == crate::chunk::chunk_text_spec(
                    text@,
                    crate::lang::spec_max_chunk_len(lang@),
                )
                &&& (trim_ws(text@).len() == 0 ==> s.chunks.deep_view() == seq![
                    Seq::<char>::empty(),
                ])
                &&& (s.phase == Phase::Done <==> s.chunks.deep_view() == seq![
                    Seq::<char>::empty(),
                ])
                &&& (s.phase == Phase::Done || s.phase == Phase::NeedDuration)
                &&& forall|k: int|
                    0 <= k < s.chunks@.len() ==> {
                        let norm = normalize_text_spec((#[trigger] s.chunks@[k])@, lang@);
                        &&& s.token_ids@[k]@.len() == norm.len()
                        &&& forall|j: int|
                            0 <= j < norm.len() ==> s.token_ids@[k]@[j] == token_of(
                                ctx.processor.indexer@,
                                norm[j],
                            )
                    }
            },
    {
        if speed.num == 0 || speed.den == 0 {
            return Err(TtsError::InvalidParameter);
        }
        if !crate::lang::is_valid_lang(lang) {
            return Err(TtsError::InvalidLanguage);
        }
        let bound = max_chunk_len(lang);
        let chunks = chunk_text(text, Some(bound));
        let empty_text = chunks.len() == 1 && chunks[0].as_str().unicode_len() == 0;
        // encode every chunk as a batch of one
        let mut token_ids: Vec<Vec<i64>> = Vec::new();
        let mut k: usize = 0;
        while k < chunks.len()
            invariant
                k <= chunks@.len(),
                token_ids@.len() == k,
                is_supported_lang(lang@),
                forall|q: int|
                    0 <= q < k ==> {
                        let norm = normalize_text_spec((#[trigger] chunks@[q])@, lang@);
                        &&& token_ids@[q]@.len() == norm.len()
                        &&& forall|j: int|
                            0 <= j < norm.len() ==> token_ids@[q]@[j] == token_of(
                                ctx.processor.indexer@,
                                norm[j],
                            )
                    },
            decreases chunks@.len() - k,
        {
            let mut one_text: Vec<String> = Vec::new();
            let mut one_lang: Vec<String> = Vec::new();
            one_text.push(chunks[k].clone());
            one_lang.push(str_to_string(lang));
            let ghost norm = normalize_text_spec(chunks@[k as int]@, lang@);
            match ctx.processor.call(&one_text, &one_lang) {
                Ok((mut ids, _mask)) => {
                    proof {
                        let norms = crate::vocab::normalized_batch(
                            one_text.deep_view(),
                            one_lang.deep_view(),
                        );
                        assert(norms.len() == 1);
                        assert(one_text.deep_view()[0] == chunks@[k as int]@);
                        assert(one_lang.deep_view()[0] == lang@);
                        assert(norms[0] == norm);
                        assert(crate::vocab::batch_max_len(norms) == norm.len()) by {
                            assert(norms.drop_last().len() == 0);
                            assert(crate::vocab::batch_max_len(norms.drop_last()) == 0);
                            assert(norms.last() == norm);
                        }
                    }
                    let ghost pre_ids = ids.deep_view();
                    let row = match ids.pop() {
                        Some(row) => row,
                        None => {
                            proof {
                                assert(false);
                            }
                            Vec::new()
                        },
                    };
                    proof {
                        assert(row@ =~= pre_ids[0]);
                    }
                    token_ids.push(row);
                },
                Err(_) => {
                    proof {
                        assert(false);
                    }
                },
            }
            k += 1;
        }
        let phase = if empty_text {
            Phase::Done
        } else {
            Phase::NeedDuration
        };
        let sr = ctx.cfg.ae.sample_rate;
        let session = SynthesisSession {
            chunks,
            token_ids,
            sample_rate: sr as usize,
            chunk_size: ctx.chunk_size,
            latent_dim_val: ctx.latent_dim_val,
            total_steps,
            speed,
            silence_len,
            phase,
            cur_latent_len: 0,
            durations: Vec::new(),
            wavs: Vec::new(),
            failed: None,
        };
        proof {
            assert(empty_text <==> session.chunks.deep_view() =~= seq![Seq::<char>::empty()]) by {
                if empty_text {
                    assert(session.chunks.deep_view()[0] =~= Seq::<char>::empty());
                }
                if session.chunks.deep_view() =~= seq![Seq::<char>::empty()] {
                    assert(session.chunks@[0]@ =~= session.chunks.deep_view()[0]);
                }
            }
        }
        Ok(session)
    }

    /// The next action for the driver.
    pub fn next_action(&self) -> (a: SynthesisAction)
        ensures
            a == self.spec_action(),
    {
        match self.phase {
            Phase::NeedDuration => SynthesisAction::PredictDuration { chunk: self.wavs.len() },
            Phase::NeedEncoding => SynthesisAction::EncodeText { chunk: self.wavs.len() },
            Phase::NeedLatent => SynthesisAction::SampleLatent {
                latent_dim: self.latent_dim_val,
                latent_len: self.cur_latent_len,
            },
            Phase::Denoise(i) => SynthesisAction::EstimateVector {
                step: i,
                total_steps: self.total_steps,
            },
            Phase::NeedVocode => SynthesisAction::Vocode { chunk: self.wavs.len() },
            Phase::Done => SynthesisAction::Finished,
        }
    }

    /// Whether `ev` is the event the session waits for; a driver tests
    /// this before feeding.
    pub fn expects(&self, ev: &SynthesisEvent<T>) -> (r: bool)
        ensures
            r == self.spec_expects(*ev),
    {
        match ev {
            SynthesisEvent::DurationReady { .. } => matches!(self.phase, Phase::NeedDuration),
            SynthesisEvent::TextEncoded => matches!(self.phase, Phase::NeedEncoding),
            SynthesisEvent::LatentReady => matches!(self.phase, Phase::NeedLatent),
            SynthesisEvent::VectorEstimated => matches!(self.phase, Phase::Denoise(_)),
            SynthesisEvent::WaveformReady { .. } => matches!(self.phase, Phase::NeedVocode),
            SynthesisEvent::StageFailed { .. } => !matches!(self.phase, Phase::Done),
        }
    }

    /// Consumes one stage result and advances the session.
    ///
    /// On `DurationReady` the predicted duration is divided by the speed
    /// and recorded; a value past the machine's limits fails with
    /// `InvalidParameter`.  The denoising steps run strictly in order:
    /// step `i + 1` is requested only after step `i`'s event.  On
    /// `WaveformReady` the chunk's samples are stored; after the last
    /// chunk the session is done.  On `StageFailed` the whole call aborts
    /// with `InferenceFailure` carrying the failing stage.
    pub fn feed(&mut self, ev: SynthesisEvent<T>) -> (r: Result<(), TtsError>)
        requires
            old(self).wf(),
            old(self).spec_expects(ev),
        ensures
            final(self).wf(),
            final(self).chunks == old(self).chunks,
            final(self).token_ids == old(self).token_ids,
            final(self).total_steps == old(self).total_steps,
            final(self).speed == old(self).speed,
            final(self).silence_len == old(self).silence_len,
            final(self).chunk_size == old(self).chunk_size,
            final(self).latent_dim_val == old(self).latent_dim_val,
            final(self).sample_rate == old(self).sample_rate,
            ev matches SynthesisEvent::StageFailed { stage } ==> {
                &&& r == Result::<(), TtsError>::Err(TtsError::InferenceFailure(stage))
                &&& final(self).phase == Phase::Done
                &&& final(self).failed == Some(stage)
            },
            ev matches SynthesisEvent::DurationReady { duration_samples } ==> {
                let scaled = scaled_duration(duration_samples, old(self).speed);
                if scaled <= usize::MAX - old(self).chunk_size && total_duration(
                    old(self).durations@.push(scaled as usize),
                    old(self).silence_len as int,
                ) <= usize::MAX {
                    &&& r is Ok
                    &&& final(self).durations@ == old(self).durations@.push(scaled as usize)
                    &&& final(self).phase == Phase::NeedEncoding
                    &&& final(self).wavs == old(self).wavs
                    &&& final(self).failed is None
                } else {
                    &&& r == Result::<(), TtsError>::Err(TtsError::InvalidParameter)
                    &&& final(self).phase == Phase::Done
                }
            },
            ev matches SynthesisEvent::TextEncoded ==> {
                &&& r is Ok
                &&& final(self).durations == old(self).durations
                &&& final(self).wavs == old(self).wavs
                &&& final(self).phase == Phase::NeedLatent
                &&& final(self).cur_latent_len == ceil_div(
                    old(self).durations@.last() as int,
                    old(self).chunk_size as int,
                )
            },
            ev matches SynthesisEvent::LatentReady ==> {
                &&& r is Ok
                &&& final(self).durations == old(self).durations
                &&& final(self).wavs == old(self).wavs
                &&& final(self).phase == (if old(self).total_steps == 0 {
                    Phase::NeedVocode
                } else {
                    Phase::Denoise(0)
                })
            },
            ev matches SynthesisEvent::VectorEstimated ==> {
                &&& r is Ok
                &&& final(self).durations == old(self).durations
                &&& final(self).wavs == old(self).wavs
                &&& (old(self).phase matches Phase::Denoise(i) ==> final(self).phase == (if i + 1
                    < old(self).total_steps {
                    Phase::Denoise((i + 1) as usize)
                } else {
                    Phase::NeedVocode
                }))
            },
            ev matches SynthesisEvent::WaveformReady { samples } ==> {
                &&& r is Ok
                &&& final(self).durations == old(self).durations
                &&& final(self).wavs@ == old(self).wavs@.push(samples)
                &&& final(self).failed is None
                &&& final(self).phase == (if old(self).wavs@.len() + 1 == old(
                    self,
                ).chunks@.len() {
                    Phase::Done
                } else {
                    Phase::NeedDuration
                })
            },
    {
        match ev {
            SynthesisEvent::StageFailed { stage } => {
                self.phase = Phase::Done;
                self.failed = Some(stage);
                Err(TtsError::InferenceFailure(stage))
            },
            SynthesisEvent::DurationReady { duration_samples } => {
                // scale by the speed ratio in wide arithmetic, then check
                // the machine limits
                proof {
                    assert((duration_samples as int) * (self.speed.den as int)
                        <= 0xFFFF_FFFF_FFFF_FFFF * 0xFFFF_FFFF) by (nonlinear_arith)
                        requires
                            duration_samples as int <= 0xFFFF_FFFF_FFFF_FFFF,
                            0 <= self.speed.den as int <= 0xFFFF_FFFF,
                            0 <= duration_samples as int,
                    ;
                }
                let wide: u128 = (duration_samples as u128) * (self.speed.den as u128);
                let scaled_wide: u128 = wide / (self.speed.num as u128);
                let ghost scaled_spec = scaled_duration(duration_samples, self.speed);
                proof {
                    assert(scaled_wide == scaled_spec);
                }
                if scaled_wide > (usize::MAX - self.chunk_size) as u128 {
                    self.phase = Phase::Done;
                    self.failed = Some(StageKind::DurationPredictor);
                    return Err(TtsError::InvalidParameter);
                }
                let scaled = scaled_wide as usize;
                let ghost new_durs = self.durations@.push(scaled);
                // the running total with this chunk and its leading silence
                let current = self.total_samples();
                proof {
                    // total after this chunk: old total, plus silence if a
                    // chunk came before, plus the new duration
                    crate::audio::lemma_sum_snoc(self.durations@, scaled);
                    assert(new_durs.len() - 1 == self.durations@.len());
                    if self.durations@.len() > 0 {
                        assert((self.durations@.len() - 1) * self.silence_len + self.silence_len
                            == self.durations@.len() * self.silence_len) by (nonlinear_arith);
                    } else {
                        assert(crate::audio::sum_durs(self.durations@) == 0);
                        assert(0 * self.silence_len == 0) by (nonlinear_arith);
                    }
                    assert(total_duration(new_durs, self.silence_len as int) == current + (
                    if self.durations@.len() > 0 {
                        self.silence_len as int
                    } else {
                        0
                    }) + scaled);
                }
                let add_silence: usize = if self.durations.len() > 0 {
                    self.silence_len
                } else {
                    0
                };
                let with_silence = match current.checked_add(add_silence) {
                    Some(v) => v,
                    None => {
                        self.phase = Phase::Done;
                        self.failed = Some(StageKind::DurationPredictor);
                        return Err(TtsError::InvalidParameter);
                    },
                };
                match with_silence.checked_add(scaled) {
                    Some(_) => {},
                    None => {
                        self.phase = Phase::Done;
                        self.failed = Some(StageKind::DurationPredictor);
                        return Err(TtsError::InvalidParameter);
                    },
                };
                self.durations.push(scaled);
                self.phase = Phase::NeedEncoding;
                Ok(())
            },
            SynthesisEvent::TextEncoded => {
                let last = self.durations[self.durations.len() - 1];
                self.cur_latent_len = (last + self.chunk_size - 1) / self.chunk_size;
                self.phase = Phase::NeedLatent;
                Ok(())
            },
            SynthesisEvent::LatentReady => {
                if self.total_steps == 0 {
                    self.phase = Phase::NeedVocode;
                } else {
                    self.phase = Phase::Denoise(0);
                }
                Ok(())
            },
            SynthesisEvent::VectorEstimated => {
                let i = match self.phase {
                    Phase::Denoise(i) => i,
                    _ => 0,
                };
                if i + 1 < self.total_steps {
                    self.phase = Phase::Denoise(i + 1);
                } else {
                    self.phase = Phase::NeedVocode;
                }
                Ok(())
            },
            SynthesisEvent::WaveformReady { samples } => {
                self.wavs.push(samples);
                if self.wavs.len() == self.chunks.len() {
                    self.phase = Phase::Done;
                } else {
                    self.phase = Phase::NeedDuration;
                }
                Ok(())
            },
        }
    }

    /// The total duration so far, in samples: completed durations plus the
    /// silence between them.
    pub fn total_samples(&self) -> (r: usize)
        requires
            self.wf(),
        ensures
            r == total_duration(self.durations@, self.silence_len as int),
    {
        let mut total: usize = 0;
        let mut i: usize = 0;
        proof {
            assert(self.durations@.take(0) =~= Seq::<usize>::empty());
        }
        while i < self.durations.len()
            invariant
                i <= self.durations@.len(),
                total_duration(self.durations@, self.silence_len as int) <= usize::MAX,
                i == 0 ==> total == 0,
                i > 0 ==> total == crate::audio::sum_durs(self.durations@.take(i as int)) + (i - 1)
                    * self.silence_len,
            decreases self.durations@.len() - i,
        {
            proof {
                crate::audio::lemma_take_sum(self.durations@, i + 1int, self.silence_len as int);
                assert(self.durations@.take(i + 1int) =~= self.durations@.take(i as int).push(
                    self.durations@[i as int],
                ));
                crate::audio::lemma_sum_snoc(
                    self.durations@.take(i as int),
                    self.durations@[i as int],
                );
                assert((i - 1) * self.silence_len + self.silence_len == i * self.silence_len)
                    by (nonlinear_arith);
            }
            if i > 0 {
                total = total + self.silence_len;
            }
            total = total + self.durations[i];
            i += 1;
        }
        proof {
            assert(self.durations@.take(self.durations@.len() as int) =~= self.durations@);
        }
        total
    }

    /// The latent shape of the current chunk (a batch of one), for the
    /// driver that samples the noise: the latent dimensions and the mask
    /// over the latent positions.
    pub fn latent_shape(&self) -> (r: crate::latent::LatentShape)
        requires
            self.wf(),
            self.phase == Phase::NeedLatent,
        ensures
            r.bsz == 1,
            r.latent_dim == self.latent_dim_val,
            r.latent_len == self.cur_latent_len,
            r.latent_lengths@ == seq![self.cur_latent_len],
            r.mask.deep_view().len() == 1,
            r.mask.deep_view()[0].len() == self.cur_latent_len,
            forall|j: int| 0 <= j < self.cur_latent_len ==> r.mask.deep_view()[0][j] == 1u8,
    {
        let mut wav_lengths: Vec<usize> = Vec::new();
        wav_lengths.push(self.durations[self.durations.len() - 1]);
        let shape = crate::latent::noisy_latent_shape(
            &wav_lengths,
            self.chunk_size,
            self.latent_dim_val,
        );
        proof {
            assert(wav_lengths@ =~= seq![self.durations@.last()]);
            assert(crate::vocab::seq_max(wav_lengths@) == self.durations@.last()) by {
                assert(wav_lengths@.drop_last() =~= Seq::<usize>::empty());
                assert(crate::vocab::seq_max(wav_lengths@.drop_last()) == 0);
                assert(wav_lengths@.last() == self.durations@.last());
            }
            assert(shape.latent_lengths@ =~= seq![self.cur_latent_len]);
        }
        shape
    }

    /// Whether the session has ended.
    pub fn is_done(&self) -> (r: bool)
        ensures
            r == self.spec_done(),
    {
        matches!(self.phase, Phase::Done)
    }

    /// The failure that ended the session, if one did.
    pub fn failure(&self) -> (r: Option<StageKind>)
        ensures
            r == self.failed,
    {
        self.failed
    }

    /// Assembles the finished session's waveform: each chunk trimmed to
    /// its scaled predicted duration, `silence_len` samples of
    /// `silence_value` before every chunk after the first, and the total
    /// duration in samples.
    pub fn finish(&self, silence_value: T) -> (r: (Vec<T>, usize))
        requires
            self.wf(),
            self.spec_done(),
            self.failed is None,
        ensures
            r.0@ == assembled(self.wavs@, self.durations@, self.silence_len as int, silence_value),
            r.1 == total_duration(self.durations@, self.silence_len as int),
    {
        assemble(&self.wavs, &self.durations, self.silence_len, silence_value)
    }
}

/// An empty session (an empty text) assembles to zero samples and zero
/// duration, with no stage having run.
pub proof fn lemma_empty_session_silent<T>(
    wavs: Seq<Vec<T>>,
    durs: Seq<usize>,
    silence_len: int,
    z: T,
)
    requires
        wavs.len() == 0,
        durs.len() == 0,
    ensures
        assembled(wavs, durs, silence_len, z) == Seq::<T>::empty(),
        total_duration(durs, silence_len) == 0,
{
}

} // verus!
