use tonic_tts::audio::assemble;
use tonic_tts::errors::TtsError;
use tonic_tts::latent::noisy_latent_shape;
use tonic_tts::style::{load_voice_style_batch, load_voice_style_from_data, StyleComponent,
    VoiceStyleData};
use tonic_tts::vocab::{get_text_mask, length_to_mask, text_to_unicode_values, UnicodeProcessor};

fn identity_indexer(n: usize) -> Vec<i64> {
    let mut v = Vec::new();
    let mut i: i64 = 0;
    while (i as usize) < n {
        v.push(i);
        i += 1;
    }
    v
}

#[test]
fn unicode_values_are_code_points() {
    assert_eq!(text_to_unicode_values("AB"), vec![65, 66]);
    assert_eq!(text_to_unicode_values(""), Vec::<usize>::new());
    assert_eq!(text_to_unicode_values("\u{00E9}"), vec![0xE9]);
}

#[test]
fn encoder_maps_through_table() {
    let p = UnicodeProcessor::new(identity_indexer(128));
    let (ids, mask) = p
        .call(&vec!["hi".to_string()], &vec!["en".to_string()])
        .unwrap();
    // normalized text is "<en>hi.</en>"
    let expected: Vec<i64> = "<en>hi.</en>".chars().map(|c| c as i64).collect();
    assert_eq!(ids, vec![expected]);
    assert_eq!(mask, vec![vec![1u8; 12]]);
}

#[test]
fn encoder_uses_unknown_sentinel_out_of_range() {
    // a table of one entry: every real character maps to -1, never a panic
    let p = UnicodeProcessor::new(vec![7i64]);
    let (ids, mask) = p
        .call(&vec!["ab".to_string()], &vec!["en".to_string()])
        .unwrap();
    assert_eq!(ids[0], vec![-1i64; 12]);
    assert_eq!(mask[0], vec![1u8; 12]);
}

#[test]
fn encoder_pads_batch_to_longest() {
    let p = UnicodeProcessor::new(identity_indexer(128));
    let texts = vec!["hi".to_string(), "hello".to_string()];
    let langs = vec!["en".to_string(), "en".to_string()];
    let (ids, mask) = p.call(&texts, &langs).unwrap();
    // "<en>hi.</en>" has 12 characters, "<en>hello.</en>" has 15
    assert_eq!(ids[0].len(), 15);
    assert_eq!(ids[1].len(), 15);
    assert_eq!(&ids[0][12..], &[0i64, 0, 0]);
    assert_eq!(&mask[0][..], &[1, 1, 1, 1, 1, 1, 1, 1, 1, 1, 1, 1, 0, 0, 0]);
    assert_eq!(&mask[1][..], &[1u8; 15]);
}

#[test]
fn encoder_rejects_bad_language() {
    let p = UnicodeProcessor::new(identity_indexer(128));
    let r = p.call(&vec!["hi".to_string()], &vec!["zz".to_string()]);
    assert_eq!(r.unwrap_err(), TtsError::InvalidLanguage);
}

#[test]
fn mask_marks_real_positions() {
    let m = length_to_mask(&vec![2, 4], Some(5));
    assert_eq!(m, vec![vec![1, 1, 0, 0, 0], vec![1, 1, 1, 1, 0]]);
    let m2 = length_to_mask(&vec![3, 1], None);
    assert_eq!(m2, vec![vec![1, 1, 1], vec![1, 0, 0]]);
    let m3 = get_text_mask(&vec![1, 2]);
    assert_eq!(m3, vec![vec![1, 0], vec![1, 1]]);
}

fn style_block(values: Vec<Vec<Vec<f32>>>, dims: Vec<usize>) -> StyleComponent<f32> {
    StyleComponent { data: values, dims, dtype: "float32".to_string() }
}

#[test]
fn style_flattens_row_major() {
    let data = VoiceStyleData {
        style_ttl: style_block(vec![vec![vec![1.0, 2.0], vec![3.0, 4.0]]], vec![1, 2, 2]),
        style_dp: style_block(vec![vec![vec![5.0], vec![6.0], vec![7.0]]], vec![1, 3, 1]),
    };
    let s = load_voice_style_from_data(data).unwrap();
    assert_eq!(s.ttl.data, vec![1.0, 2.0, 3.0, 4.0]);
    assert_eq!((s.ttl.batch, s.ttl.dim1, s.ttl.dim2), (1, 2, 2));
    assert_eq!(s.dp.data, vec![5.0, 6.0, 7.0]);
    assert_eq!((s.dp.batch, s.dp.dim1, s.dp.dim2), (1, 3, 1));
}

#[test]
fn style_rejects_dimension_mismatch() {
    let data = VoiceStyleData {
        style_ttl: style_block(vec![vec![vec![1.0, 2.0], vec![3.0]]], vec![1, 2, 2]),
        style_dp: style_block(vec![vec![vec![5.0]]], vec![1, 1, 1]),
    };
    let r = load_voice_style_from_data(data);
    assert_eq!(r.unwrap_err(), TtsError::StyleLoadError);
}

#[test]
fn style_rejects_wrong_dims_length() {
    let data = VoiceStyleData {
        style_ttl: style_block(vec![vec![vec![1.0]]], vec![1, 1]),
        style_dp: style_block(vec![vec![vec![5.0]]], vec![1, 1, 1]),
    };
    assert_eq!(load_voice_style_from_data(data).unwrap_err(), TtsError::StyleLoadError);
}

#[test]
fn style_batch_concatenates() {
    let one = VoiceStyleData {
        style_ttl: style_block(vec![vec![vec![1.0, 2.0]]], vec![1, 1, 2]),
        style_dp: style_block(vec![vec![vec![3.0]]], vec![1, 1, 1]),
    };
    let two = VoiceStyleData {
        style_ttl: style_block(vec![vec![vec![4.0, 5.0]]], vec![1, 1, 2]),
        style_dp: style_block(vec![vec![vec![6.0]]], vec![1, 1, 1]),
    };
    let s = load_voice_style_batch(&vec![one, two]).unwrap();
    assert_eq!(s.ttl.data, vec![1.0, 2.0, 4.0, 5.0]);
    assert_eq!(s.ttl.batch, 2);
    assert_eq!(s.dp.data, vec![3.0, 6.0]);
}

#[test]
fn style_batch_rejects_disagreeing_shapes() {
    let one = VoiceStyleData {
        style_ttl: style_block(vec![vec![vec![1.0, 2.0]]], vec![1, 1, 2]),
        style_dp: style_block(vec![vec![vec![3.0]]], vec![1, 1, 1]),
    };
    let two = VoiceStyleData {
        style_ttl: style_block(vec![vec![vec![4.0]]], vec![1, 1, 1]),
        style_dp: style_block(vec![vec![vec![6.0]]], vec![1, 1, 1]),
    };
    assert_eq!(load_voice_style_batch(&vec![one, two]).unwrap_err(), TtsError::StyleLoadError);
}

#[test]
fn latent_shape_rounds_up() {
    let shape = noisy_latent_shape(&vec![10, 25], 8, 4);
    assert_eq!(shape.bsz, 2);
    assert_eq!(shape.latent_dim, 4);
    assert_eq!(shape.latent_len, 4);
    assert_eq!(shape.latent_lengths, vec![2, 4]);
    assert_eq!(shape.mask, vec![vec![1, 1, 0, 0], vec![1, 1, 1, 1]]);
}

#[test]
fn assemble_inserts_exact_silence() {
    let wavs = vec![vec![0.1f32, 0.2, 0.3], vec![0.4, 0.5]];
    let durs = vec![2usize, 2usize];
    let (wav, total) = assemble(&wavs, &durs, 3, 0.0f32);
    assert_eq!(wav, vec![0.1, 0.2, 0.0, 0.0, 0.0, 0.4, 0.5]);
    assert_eq!(total, 2 + 3 + 2);
}

#[test]
fn assemble_clamps_trim_to_produced_length() {
    let wavs = vec![vec![0.1f32, 0.2]];
    let durs = vec![10usize];
    let (wav, total) = assemble(&wavs, &durs, 100, 0.0f32);
    assert_eq!(wav, vec![0.1, 0.2]);
    assert_eq!(total, 10);
}

#[test]
fn assemble_empty_is_silent() {
    let wavs: Vec<Vec<f32>> = Vec::new();
    let durs: Vec<usize> = Vec::new();
    let (wav, total) = assemble(&wavs, &durs, 5, 0.0f32);
    assert!(wav.is_empty());
    assert_eq!(total, 0);
}
