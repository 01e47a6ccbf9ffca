use tonic_tts::chunk::chunk_text;
use tonic_tts::errors::TtsError;
use tonic_tts::lang::{is_valid_lang, max_chunk_len};
use tonic_tts::segment::split_sentences;
use tonic_tts::textnorm::preprocess_text;
use tonic_tts::textutil::sanitize_filename;

#[test]
fn valid_languages() {
    assert!(is_valid_lang("en"));
    assert!(is_valid_lang("ko"));
    assert!(is_valid_lang("es"));
    assert!(is_valid_lang("pt"));
    assert!(is_valid_lang("fr"));
    assert!(!is_valid_lang("de"));
    assert!(!is_valid_lang(""));
    assert!(!is_valid_lang("EN"));
}

#[test]
fn chunk_bounds_by_language() {
    assert_eq!(max_chunk_len("ko"), 120);
    assert_eq!(max_chunk_len("en"), 300);
    assert_eq!(max_chunk_len("fr"), 300);
}

#[test]
fn normalize_plain_text() {
    let r = preprocess_text("Hello world", "en").unwrap();
    assert_eq!(r, "<en>Hello world.</en>");
}

#[test]
fn normalize_keeps_terminal_punctuation() {
    let r = preprocess_text("Hello world!", "en").unwrap();
    assert_eq!(r, "<en>Hello world!</en>");
}

#[test]
fn normalize_rejects_unknown_language() {
    let r = preprocess_text("Hello", "zz");
    assert_eq!(r.unwrap_err(), TtsError::InvalidLanguage);
}

#[test]
fn normalize_replaces_typographic_variants() {
    let r = preprocess_text("don\u{2019}t \u{2014} yes_no", "en").unwrap();
    assert_eq!(r, "<en>don't - yes no.</en>");
}

#[test]
fn normalize_strips_emoji() {
    let r = preprocess_text("hi \u{1F600}", "en").unwrap();
    assert_eq!(r, "<en>hi.</en>");
}

#[test]
fn normalize_expands_expressions() {
    let r = preprocess_text("apples e.g., pears", "en").unwrap();
    assert_eq!(r, "<en>apples for example, pears.</en>");
    let r2 = preprocess_text("a@b", "en").unwrap();
    assert_eq!(r2, "<en>a at b.</en>");
}

#[test]
fn normalize_fixes_punctuation_spacing() {
    let r = preprocess_text("Hello , world .", "en").unwrap();
    assert_eq!(r, "<en>Hello, world.</en>");
}

#[test]
fn normalize_collapses_quote_runs() {
    let r = preprocess_text("she said \"\"hi\"\"", "en").unwrap();
    assert_eq!(r, "<en>she said \"hi\"</en>");
}

#[test]
fn normalize_collapses_whitespace() {
    let r = preprocess_text("  a \t b\n\nc  ", "en").unwrap();
    assert_eq!(r, "<en>a b c.</en>");
}

#[test]
fn normalize_applies_compatibility_decomposition() {
    // U+FB01 (a latin small ligature) decomposes to the two letters
    let r = preprocess_text("\u{FB01}n", "en").unwrap();
    assert_eq!(r, "<en>fin.</en>");
    // a precomposed accented letter decomposes into base plus mark
    let r2 = preprocess_text("\u{00E9}", "en").unwrap();
    assert_eq!(r2, "<en>e\u{0301}.</en>");
}

#[test]
fn normalize_is_idempotent_on_clean_text() {
    // the inner text of a normalized result passes through unchanged
    let once = preprocess_text("Hello there.", "en").unwrap();
    assert_eq!(once, "<en>Hello there.</en>");
    let inner = &once[4..once.len() - 5];
    let again = preprocess_text(inner, "en").unwrap();
    assert_eq!(again, once);
}

#[test]
fn sentences_respect_abbreviations() {
    let r = split_sentences("Dr. Smith arrived. He left.");
    assert_eq!(r.len(), 2);
    assert_eq!(r[0], "Dr. Smith arrived. ");
    assert_eq!(r[1], "He left.");
}

#[test]
fn sentences_whole_text_without_boundary() {
    let r = split_sentences("Hello world");
    assert_eq!(r, vec!["Hello world".to_string()]);
}

#[test]
fn sentences_split_on_each_mark() {
    let r = split_sentences("One. Two! Three?  Four");
    assert_eq!(
        r,
        vec![
            "One. ".to_string(),
            "Two! ".to_string(),
            "Three?  ".to_string(),
            "Four".to_string()
        ]
    );
}

#[test]
fn sentences_concatenation_restores_input() {
    let text = "Mr. Jones spoke. etc. was cited. Done!  Tail";
    let parts = split_sentences(text);
    let joined: String = parts.concat();
    assert_eq!(joined, text);
}

#[test]
fn sentences_of_empty_text() {
    let r = split_sentences("");
    assert_eq!(r, vec!["".to_string()]);
}

#[test]
fn chunk_empty_text_yields_one_empty_chunk() {
    assert_eq!(chunk_text("", None), vec!["".to_string()]);
    assert_eq!(chunk_text("   \n ", None), vec!["".to_string()]);
}

#[test]
fn chunk_small_text_is_one_chunk() {
    assert_eq!(chunk_text("Hello world.", None), vec!["Hello world.".to_string()]);
}

#[test]
fn chunk_packs_sentences_greedily() {
    let r = chunk_text("aaa. bbb. ccc.", Some(10));
    assert_eq!(r, vec!["aaa. bbb.".to_string(), "ccc.".to_string()]);
}

#[test]
fn chunk_splits_oversized_sentence_on_commas() {
    let r = chunk_text("aaaa, bbbb, cccc", Some(10));
    assert_eq!(r, vec!["aaaa, bbbb".to_string(), "cccc".to_string()]);
}

#[test]
fn chunk_splits_oversized_part_on_words() {
    let r = chunk_text("aaaaa bbbbb ccccc", Some(11));
    assert_eq!(r, vec!["aaaaa bbbbb".to_string(), "ccccc".to_string()]);
}

#[test]
fn chunk_emits_oversized_word_whole() {
    let r = chunk_text("abcdefghijkl", Some(5));
    assert_eq!(r, vec!["abcdefghijkl".to_string()]);
}

#[test]
fn chunk_respects_paragraph_boundaries() {
    let r = chunk_text("Para one.\n\nPara two.", None);
    assert_eq!(r, vec!["Para one.".to_string(), "Para two.".to_string()]);
}

#[test]
fn chunk_concatenation_restores_sentences() {
    let text = "aaa. bbb. ccc.";
    let chunks = chunk_text(text, Some(10));
    let joined = chunks.join(" ");
    assert_eq!(joined, text);
}

#[test]
fn chunk_lengths_stay_bounded() {
    let text = "one two three four five six seven eight nine ten";
    for chunk in chunk_text(text, Some(12)) {
        assert!(chunk.len() <= 12 || !chunk.contains(' '));
    }
}

#[test]
fn sanitize_keeps_alphanumerics() {
    assert_eq!(sanitize_filename("a b!c", 10), "a_b_c");
    assert_eq!(sanitize_filename("abcdef", 3), "abc");
    assert_eq!(sanitize_filename("caf\u{00E9}", 10), "caf\u{00E9}");
}

#[test]
fn chunk_separator_may_hold_whitespace_between_newlines() {
    let r = chunk_text("one\n \t\nTwo", None);
    assert_eq!(r, vec!["one".to_string(), "Two".to_string()]);
}

#[test]
fn chunk_lone_newline_is_not_a_boundary() {
    let r = chunk_text("a\nb\n\nc", None);
    assert_eq!(r, vec!["a\nb".to_string(), "c".to_string()]);
}

#[test]
fn chunk_oversized_paragraph_after_small_one() {
    let r = chunk_text("tiny.\n\naaa. bbb. ccc.", Some(10));
    assert_eq!(
        r,
        vec!["tiny.".to_string(), "aaa. bbb.".to_string(), "ccc.".to_string()]
    );
}
