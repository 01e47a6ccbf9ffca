//! The fixed set of supported languages and the language-dependent
//! chunking bound.

use vstd::prelude::*;

use crate::textutil::str_eq;

verus! {

/// The language codes the pipeline accepts.
pub open spec fn is_supported_lang(l: Seq<char>) -> bool {
    ||| l == "en"@
    ||| l == "ko"@
    ||| l == "es"@
    ||| l == "pt"@
    ||| l == "fr"@
}

/// Chunk length bound for a language: 120 for the whitespace-free tonal
/// language in the set, 300 otherwise.
pub open spec fn spec_max_chunk_len(l: Seq<char>) -> nat {
    if l == "ko"@ {
        120
    } else {
        300
    }
}

/// Whether `lang` is one of the supported language codes.
pub fn is_valid_lang(lang: &str) -> (r: bool)
    ensures
        r == is_supported_lang(lang@),
{
    proof {
        reveal_strlit("en");
        reveal_strlit("ko");
        reveal_strlit("es");
        reveal_strlit("pt");
        reveal_strlit("fr");
    }
    str_eq(lang, "en") || str_eq(lang, "ko") || str_eq(lang, "es") || str_eq(lang, "pt") || str_eq(lang, "fr")
}

/// The chunk length bound used when synthesizing in `lang`.
pub fn max_chunk_len(lang: &str) -> (r: usize)
    ensures
        r == spec_max_chunk_len(lang@),
{
    proof {
        reveal_strlit("ko");
    }
    if str_eq(lang, "ko") {
        120
    } else {
        300
    }
}

} // verus!
