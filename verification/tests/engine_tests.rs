use tonic_tts::config::{AEConfig, Config, TTLConfig};
use tonic_tts::engine::{PipelineContext, SpeedRatio, SynthesisAction, SynthesisEvent,
    SynthesisSession};
use tonic_tts::errors::{StageKind, TtsError};
use tonic_tts::vocab::UnicodeProcessor;

fn context() -> PipelineContext {
    let cfg = Config {
        ae: AEConfig { sample_rate: 24000, base_chunk_size: 512 },
        ttl: TTLConfig { chunk_compress_factor: 4, latent_dim: 16 },
    };
    let mut indexer: Vec<i64> = Vec::new();
    let mut i: i64 = 0;
    while i < 0x300 {
        indexer.push(i);
        i += 1;
    }
    PipelineContext::new(cfg, UnicodeProcessor::new(indexer)).unwrap()
}

fn unit_speed() -> SpeedRatio {
    SpeedRatio { num: 1, den: 1 }
}

#[test]
fn context_rejects_bad_config() {
    let cfg = Config {
        ae: AEConfig { sample_rate: 0, base_chunk_size: 512 },
        ttl: TTLConfig { chunk_compress_factor: 4, latent_dim: 16 },
    };
    let r = PipelineContext::new(cfg, UnicodeProcessor::new(vec![0i64]));
    assert!(matches!(r, Err(TtsError::ConfigLoadError)));
}

#[test]
fn context_derives_latent_parameters() {
    let ctx = context();
    assert_eq!(ctx.chunk_size, 512 * 4);
    assert_eq!(ctx.latent_dim_val, 16 * 4);
}

#[test]
fn session_rejects_zero_speed() {
    let ctx = context();
    let r = SynthesisSession::<f32>::new(&ctx, "hi", "en", 4, SpeedRatio { num: 0, den: 1 }, 0);
    assert!(matches!(r, Err(TtsError::InvalidParameter)));
}

#[test]
fn session_rejects_unknown_language() {
    let ctx = context();
    let r = SynthesisSession::<f32>::new(&ctx, "hi", "zz", 4, unit_speed(), 0);
    assert!(matches!(r, Err(TtsError::InvalidLanguage)));
}

#[test]
fn empty_text_synthesizes_to_silence() {
    let ctx = context();
    let s = SynthesisSession::<f32>::new(&ctx, "   ", "en", 4, unit_speed(), 100).unwrap();
    assert_eq!(s.next_action(), SynthesisAction::Finished);
    assert!(s.is_done());
    assert!(s.failure().is_none());
    let (wav, total) = s.finish(0.0);
    assert!(wav.is_empty());
    assert_eq!(total, 0);
}

#[test]
fn pipeline_runs_four_stages_with_zero_denoising_steps() {
    // the end-to-end scenario: one chunk, zero denoising iterations
    let ctx = context();
    let mut s = SynthesisSession::<f32>::new(&ctx, "Hello world.", "en", 0, unit_speed(), 0)
        .unwrap();
    assert_eq!(s.chunks, vec!["Hello world.".to_string()]);

    assert_eq!(s.next_action(), SynthesisAction::PredictDuration { chunk: 0 });
    s.feed(SynthesisEvent::DurationReady { duration_samples: 24000 }).unwrap();

    assert_eq!(s.next_action(), SynthesisAction::EncodeText { chunk: 0 });
    s.feed(SynthesisEvent::TextEncoded).unwrap();

    match s.next_action() {
        SynthesisAction::SampleLatent { latent_dim, latent_len } => {
            assert_eq!(latent_dim, 64);
            // 24000 samples over chunks of 2048: 12 chunks, rounded up
            assert_eq!(latent_len, (24000 + 2047) / 2048);
        }
        other => panic!("unexpected action {:?}", other),
    }
    s.feed(SynthesisEvent::LatentReady).unwrap();

    // zero steps: straight to the vocoder, no vector estimation
    assert_eq!(s.next_action(), SynthesisAction::Vocode { chunk: 0 });
    let samples = vec![0.5f32; 30000];
    s.feed(SynthesisEvent::WaveformReady { samples }).unwrap();

    assert_eq!(s.next_action(), SynthesisAction::Finished);
    let (wav, total) = s.finish(0.0);
    // trimmed to the predicted duration at the configured sample rate
    assert_eq!(wav.len(), 24000);
    assert_eq!(total, 24000);
    assert!(wav.iter().all(|v| *v == 0.5));
}

#[test]
fn denoising_steps_run_in_strict_order() {
    let ctx = context();
    let mut s = SynthesisSession::<f32>::new(&ctx, "Hi.", "en", 3, unit_speed(), 0).unwrap();
    s.feed(SynthesisEvent::DurationReady { duration_samples: 2048 }).unwrap();
    s.feed(SynthesisEvent::TextEncoded).unwrap();
    s.feed(SynthesisEvent::LatentReady).unwrap();
    assert_eq!(s.next_action(), SynthesisAction::EstimateVector { step: 0, total_steps: 3 });
    s.feed(SynthesisEvent::VectorEstimated).unwrap();
    assert_eq!(s.next_action(), SynthesisAction::EstimateVector { step: 1, total_steps: 3 });
    s.feed(SynthesisEvent::VectorEstimated).unwrap();
    assert_eq!(s.next_action(), SynthesisAction::EstimateVector { step: 2, total_steps: 3 });
    s.feed(SynthesisEvent::VectorEstimated).unwrap();
    assert_eq!(s.next_action(), SynthesisAction::Vocode { chunk: 0 });
}

#[test]
fn speed_division_scales_durations() {
    let ctx = context();
    let mut slow = SynthesisSession::<f32>::new(&ctx, "Hi.", "en", 0, unit_speed(), 0).unwrap();
    slow.feed(SynthesisEvent::DurationReady { duration_samples: 1001 }).unwrap();
    assert_eq!(slow.durations, vec![1001]);

    let mut fast = SynthesisSession::<f32>::new(
        &ctx,
        "Hi.",
        "en",
        0,
        SpeedRatio { num: 2, den: 1 },
        0,
    )
    .unwrap();
    fast.feed(SynthesisEvent::DurationReady { duration_samples: 1001 }).unwrap();
    // doubling the speed halves the scaled duration
    assert_eq!(fast.durations, vec![1001 / 2]);

    let mut slower = SynthesisSession::<f32>::new(
        &ctx,
        "Hi.",
        "en",
        0,
        SpeedRatio { num: 1, den: 2 },
        0,
    )
    .unwrap();
    slower.feed(SynthesisEvent::DurationReady { duration_samples: 1001 }).unwrap();
    assert_eq!(slower.durations, vec![2002]);
}

#[test]
fn multi_chunk_session_inserts_silence() {
    let ctx = context();
    // two sentences, each over half the bound: two chunks
    let a = "a".repeat(200);
    let b = "b".repeat(200);
    let text = format!("{}. {}.", a, b);
    let mut s = SynthesisSession::<f32>::new(&ctx, &text, "en", 1, unit_speed(), 5).unwrap();
    assert_eq!(s.chunks.len(), 2);

    for chunk in 0..2usize {
        assert_eq!(s.next_action(), SynthesisAction::PredictDuration { chunk });
        s.feed(SynthesisEvent::DurationReady { duration_samples: 4 }).unwrap();
        s.feed(SynthesisEvent::TextEncoded).unwrap();
        s.feed(SynthesisEvent::LatentReady).unwrap();
        s.feed(SynthesisEvent::VectorEstimated).unwrap();
        assert_eq!(s.next_action(), SynthesisAction::Vocode { chunk });
        let fill = if chunk == 0 { 0.25f32 } else { 0.75f32 };
        s.feed(SynthesisEvent::WaveformReady { samples: vec![fill; 6] }).unwrap();
    }
    assert!(s.is_done());
    let (wav, total) = s.finish(0.0);
    assert_eq!(
        wav,
        vec![0.25, 0.25, 0.25, 0.25, 0.0, 0.0, 0.0, 0.0, 0.0, 0.75, 0.75, 0.75, 0.75]
    );
    assert_eq!(total, 4 + 5 + 4);
}

#[test]
fn stage_failure_aborts_with_its_identity() {
    let ctx = context();
    let mut s = SynthesisSession::<f32>::new(&ctx, "Hi.", "en", 0, unit_speed(), 0).unwrap();
    let r = s.feed(SynthesisEvent::StageFailed { stage: StageKind::DurationPredictor });
    assert_eq!(r.unwrap_err(), TtsError::InferenceFailure(StageKind::DurationPredictor));
    assert!(s.is_done());
    assert_eq!(s.failure(), Some(StageKind::DurationPredictor));
}

#[test]
fn korean_uses_shorter_chunks() {
    let ctx = context();
    let a = "\u{AC00}".repeat(100);
    let b = "\u{B098}".repeat(100);
    let text = format!("{}. {}.", a, b);
    // 203 characters: one chunk for most languages, two under the 120 bound
    let s_en = SynthesisSession::<f32>::new(&ctx, &text, "en", 0, unit_speed(), 0).unwrap();
    assert_eq!(s_en.chunks.len(), 1);
    let s_ko = SynthesisSession::<f32>::new(&ctx, &text, "ko", 0, unit_speed(), 0).unwrap();
    assert_eq!(s_ko.chunks.len(), 2);
}

#[test]
fn latent_shape_of_current_chunk() {
    let ctx = context();
    let mut s = SynthesisSession::<f32>::new(&ctx, "Hi.", "en", 0, unit_speed(), 0).unwrap();
    s.feed(SynthesisEvent::DurationReady { duration_samples: 5000 }).unwrap();
    s.feed(SynthesisEvent::TextEncoded).unwrap();
    let shape = s.latent_shape();
    assert_eq!(shape.bsz, 1);
    assert_eq!(shape.latent_dim, 64);
    assert_eq!(shape.latent_len, (5000 + 2047) / 2048);
    assert_eq!(shape.latent_lengths, vec![shape.latent_len]);
    assert_eq!(shape.mask, vec![vec![1u8; shape.latent_len]]);
}

#[test]
fn total_samples_accumulates_with_silence() {
    let ctx = context();
    let a = "a".repeat(200);
    let b = "b".repeat(200);
    let text = format!("{}. {}.", a, b);
    let mut s = SynthesisSession::<f32>::new(&ctx, &text, "en", 0, unit_speed(), 7).unwrap();
    assert_eq!(s.total_samples(), 0);
    s.feed(SynthesisEvent::DurationReady { duration_samples: 10 }).unwrap();
    s.feed(SynthesisEvent::TextEncoded).unwrap();
    s.feed(SynthesisEvent::LatentReady).unwrap();
    s.feed(SynthesisEvent::WaveformReady { samples: vec![0.0f32; 10] }).unwrap();
    assert_eq!(s.total_samples(), 10);
    s.feed(SynthesisEvent::DurationReady { duration_samples: 20 }).unwrap();
    assert_eq!(s.total_samples(), 10 + 7 + 20);
}
