//! Sentence segmentation: candidate boundaries at `.`, `!` or `?` followed
//! by whitespace, suppressed when the preceding token matches a fixed
//! abbreviation list.  A heuristic, not a grammar.

use vstd::prelude::*;

use crate::textnorm::{is_space_char, is_space_char_exec, trim_ws};
use crate::textutil::{chars_to_string, str_to_chars, sub_chars};

verus! {

/// The punctuation characters that can end a sentence.
pub open spec fn is_sentence_punct(c: char) -> bool {
    c == '.' || c == '!' || c == '?'
}

fn is_sentence_punct_exec(c: char) -> (r: bool)
    ensures
        r == is_sentence_punct(c),
{
    c == '.' || c == '!' || c == '?'
}

/// The fixed abbreviation list whose members suppress a boundary.
pub open spec fn abbreviations() -> Seq<Seq<char>> {
    seq![
        "Dr."@,
        "Mr."@,
        "Mrs."@,
        "Ms."@,
        "Prof."@,
        "Sr."@,
        "Jr."@,
        "St."@,
        "Ave."@,
        "Rd."@,
        "Blvd."@,
        "Dept."@,
        "Inc."@,
        "Ltd."@,
        "Co."@,
        "Corp."@,
        "etc."@,
        "vs."@,
        "i.e."@,
        "e.g."@,
        "Ph.D."@,
    ]
}

/// Whether `suf` is a suffix of `s`.
pub open spec fn is_suffix_of(suf: Seq<char>, s: Seq<char>) -> bool {
    suf.len() <= s.len() && s.skip(s.len() - suf.len()) == suf
}

/// Whether `s` ends with one of the fixed abbreviations.
pub open spec fn ends_with_abbreviation(s: Seq<char>) -> bool {
    exists|k: int|
        0 <= k < abbreviations().len() && is_suffix_of(#[trigger] abbreviations()[k], s)
}

fn ends_with(v: &Vec<char>, suf: &Vec<char>) -> (r: bool)
    ensures
        r == is_suffix_of(suf@, v@),
{
    if suf.len() > v.len() {
        return false;
    }
    let off = v.len() - suf.len();
    let mut k: usize = off;
    while k < v.len()
        invariant
            off <= k <= v@.len(),
            off == v@.len() - suf@.len(),
            forall|t: int| off <= t < k ==> v@[t] == suf@[t - off],
        decreases v@.len() - k,
    {
        if v[k] != suf[k - off] {
            assert(v@.skip(off as int)[k - off] == v@[k as int]);
            assert(v@.skip(off as int) != suf@);
            return false;
        }
        k += 1;
    }
    assert(v@.skip(off as int) =~= suf@);
    true
}

/// Builds the abbreviation list as character vectors.
fn abbreviation_list() -> (r: Vec<Vec<char>>)
    ensures
        r.deep_view() == abbreviations(),
{
    let mut out: Vec<Vec<char>> = Vec::new();
    out.push(str_to_chars("Dr."));
    out.push(str_to_chars("Mr."));
    out.push(str_to_chars("Mrs."));
    out.push(str_to_chars("Ms."));
    out.push(str_to_chars("Prof."));
    out.push(str_to_chars("Sr."));
    out.push(str_to_chars("Jr."));
    out.push(str_to_chars("St."));
    out.push(str_to_chars("Ave."));
    out.push(str_to_chars("Rd."));
    out.push(str_to_chars("Blvd."));
    out.push(str_to_chars("Dept."));
    out.push(str_to_chars("Inc."));
    out.push(str_to_chars("Ltd."));
    out.push(str_to_chars("Co."));
    out.push(str_to_chars("Corp."));
    out.push(str_to_chars("etc."));
    out.push(str_to_chars("vs."));
    out.push(str_to_chars("i.e."));
    out.push(str_to_chars("e.g."));
    out.push(str_to_chars("Ph.D."));
    assert(out.deep_view() =~~= abbreviations());
    out
}

fn ends_with_abbreviation_exec(v: &Vec<char>) -> (r: bool)
    ensures
        r == ends_with_abbreviation(v@),
{
    let abbrevs = abbreviation_list();
    let mut i: usize = 0;
    while i < abbrevs.len()
        invariant
            i <= abbrevs.len(),
            abbrevs.deep_view() == abbreviations(),
            forall|k: int| 0 <= k < i ==> !is_suffix_of(#[trigger] abbreviations()[k], v@),
        decreases abbrevs.len() - i,
    {
        assert(abbrevs.deep_view()[i as int] =~= abbrevs@[i as int]@);
        if ends_with(v, &abbrevs[i]) {
            return true;
        }
        i += 1;
    }
    false
}

/// The token immediately before position `i`, trimmed, with the punctuation
/// character at `i` appended: what the abbreviation list is tested against.
pub open spec fn boundary_token(s: Seq<char>, from: int, i: int) -> Seq<char> {
    trim_ws(s.subrange(from, i)).push(s[i])
}

/// The end of the whitespace run starting at `k`: the first position at
/// or after `k` holding a non-whitespace character.
pub open spec fn ws_run_end(s: Seq<char>, k: int) -> int
    recommends
        0 <= k <= s.len(),
    decreases s.len() - k,
    when 0 <= k <= s.len()
{
    if k < s.len() && is_space_char(s[k]) {
        ws_run_end(s, k + 1)
    } else {
        k
    }
}

pub proof fn lemma_ws_run_end_bounds(s: Seq<char>, k: int)
    requires
        0 <= k <= s.len(),
    ensures
        k <= ws_run_end(s, k) <= s.len(),
    decreases s.len() - k,
{
    if k < s.len() && is_space_char(s[k]) {
        lemma_ws_run_end_bounds(s, k + 1);
    }
}

pub proof fn lemma_ws_run_end_is(s: Seq<char>, k: int, j: int)
    requires
        0 <= k <= j <= s.len(),
        forall|q: int| k <= q < j ==> is_space_char(#[trigger] s[q]),
        j < s.len() ==> !is_space_char(s[j]),
    ensures
        ws_run_end(s, k) == j,
    decreases j - k,
{
    if k < j {
        lemma_ws_run_end_is(s, k + 1, j);
    }
}

/// A candidate sentence boundary: a sentence mark followed by whitespace.
pub open spec fn is_boundary_candidate(s: Seq<char>, i: int) -> bool {
    0 <= i && i + 1 < s.len() && is_sentence_punct(s[i]) && is_space_char(s[i + 1])
}

/// The scan over the text: from position `i`, with the current sentence
/// starting at `last`.  An accepted boundary closes the sentence through
/// its trailing whitespace run; a suppressed one (an abbreviation) is
/// passed over; the remainder after the last boundary is a final sentence.
pub open spec fn scan_sentences(s: Seq<char>, last: int, i: int) -> Seq<Seq<char>>
    recommends
        0 <= last <= i <= s.len(),
    decreases s.len() - i,
    when 0 <= last <= i <= s.len()
    via scan_sentences_decreases
{
    if i >= s.len() {
        if last < s.len() {
            seq![s.subrange(last, s.len() as int)]
        } else {
            Seq::empty()
        }
    } else if is_boundary_candidate(s, i) {
        let j = ws_run_end(s, i + 2);
        if ends_with_abbreviation(boundary_token(s, last, i)) {
            scan_sentences(s, last, j)
        } else {
            seq![s.subrange(last, j)] + scan_sentences(s, j, j)
        }
    } else {
        scan_sentences(s, last, i + 1)
    }
}

#[via_fn]
proof fn scan_sentences_decreases(s: Seq<char>, last: int, i: int) {
    if i < s.len() && is_boundary_candidate(s, i) {
        lemma_ws_run_end_bounds(s, i + 2);
    }
}

/// What `split_sentences` returns: the scanned sentences, or the whole
/// text as one sentence when the scan found none.
pub open spec fn split_sentences_spec(s: Seq<char>) -> Seq<Seq<char>> {
    let parts = scan_sentences(s, 0, 0);
    if parts.len() == 0 {
        seq![s]
    } else {
        parts
    }
}

/// Splits `text` into sentences.  Candidate boundaries sit at `.`, `!` or
/// `?` followed by whitespace; a candidate whose preceding token ends with a
/// fixed abbreviation is suppressed.  An accepted boundary closes the
/// sentence including the punctuation and the trailing whitespace run.  The
/// result is never empty, concatenating it restores `text` exactly, and no
/// sentence of a non-empty text is empty.
pub fn split_sentences(text: &str) -> (r: Vec<String>)
    ensures
        r.deep_view() == split_sentences_spec(text@),
        r@.len() >= 1,
        r.deep_view().flatten() == text@,
        text@.len() > 0 ==> forall|k: int| 0 <= k < r@.len() ==> (#[trigger] r@[k])@.len() > 0,
{
    let s = str_to_chars(text);
    let n = s.len();
    let mut out: Vec<String> = Vec::new();
    let mut last_end: usize = 0;
    let mut i: usize = 0;
    proof {
        assert(Seq::<Seq<char>>::empty().flatten() =~= Seq::<char>::empty());
        assert(s@.take(0) =~= Seq::<char>::empty());
        assert(Seq::<Seq<char>>::empty() + scan_sentences(s@, 0, 0) =~= scan_sentences(s@, 0, 0));
    }
    while i < n
        invariant
            i <= n,
            last_end <= i,
            n == s@.len(),
            s@ == text@,
            out.deep_view().flatten() == s@.take(last_end as int),
            forall|k: int| 0 <= k < out@.len() ==> (#[trigger] out@[k])@.len() > 0,
            scan_sentences(s@, 0, 0) == out.deep_view() + scan_sentences(
                s@,
                last_end as int,
                i as int,
            ),
        decreases n - i,
    {
        let c = s[i];
        if is_sentence_punct_exec(c) && i + 1 < n && is_space_char_exec(s[i + 1]) {
            assert(is_boundary_candidate(s@, i as int));
            // extend over the whitespace run: the candidate match is [i, j)
            let mut j: usize = i + 2;
            while j < n && is_space_char_exec(s[j])
                invariant
                    i + 2 <= j <= n,
                    n == s@.len(),
                    forall|q: int| i + 2 <= q < j ==> is_space_char(#[trigger] s@[q]),
                decreases n - j,
            {
                j += 1;
            }
            proof {
                lemma_ws_run_end_is(s@, i + 2int, j as int);
            }
            // the token before the punctuation, trimmed, plus the mark
            let before = sub_chars(&s, last_end, i);
            let mut token = crate::textnorm::trim_ws_exec(&before);
            token.push(c);
            assert(token@ == boundary_token(s@, last_end as int, i as int));
            if !ends_with_abbreviation_exec(&token) {
                // accepted boundary: the sentence runs through the whitespace
                proof {
                    assert(scan_sentences(s@, last_end as int, i as int) == seq![
                        s@.subrange(last_end as int, j as int),
                    ] + scan_sentences(s@, j as int, j as int));
                }
                let piece = sub_chars(&s, last_end, j);
                let piece_str = chars_to_string(&piece);
                let ghost pre_deep = out.deep_view();
                out.push(piece_str);
                proof {
                    assert(out.deep_view() =~= pre_deep.push(s@.subrange(
                        last_end as int,
                        j as int,
                    )));
                    pre_deep.lemma_flatten_push(s@.subrange(last_end as int, j as int));
                    assert(s@.take(last_end as int) + s@.subrange(last_end as int, j as int)
                        =~= s@.take(j as int));
                    assert(pre_deep.push(s@.subrange(last_end as int, j as int)) =~= pre_deep
                        + seq![s@.subrange(last_end as int, j as int)]);
                    assert((pre_deep + seq![s@.subrange(last_end as int, j as int)])
                        + scan_sentences(s@, j as int, j as int) =~= pre_deep + (seq![
                        s@.subrange(last_end as int, j as int),
                    ] + scan_sentences(s@, j as int, j as int)));
                }
                last_end = j;
            } else {
                proof {
                    assert(scan_sentences(s@, last_end as int, i as int) == scan_sentences(
                        s@,
                        last_end as int,
                        j as int,
                    ));
                }
            }
            i = j;
        } else {
            proof {
                assert(!is_boundary_candidate(s@, i as int));
                assert(scan_sentences(s@, last_end as int, i as int) == scan_sentences(
                    s@,
                    last_end as int,
                    i + 1int,
                ));
            }
            i += 1;
        }
    }
    if last_end < n {
        proof {
            assert(scan_sentences(s@, last_end as int, n as int) == seq![
                s@.subrange(last_end as int, n as int),
            ]);
        }
        let piece = sub_chars(&s, last_end, n);
        let piece_str = chars_to_string(&piece);
        let ghost pre_deep = out.deep_view();
        out.push(piece_str);
        proof {
            assert(out.deep_view() =~= pre_deep.push(s@.subrange(last_end as int, n as int)));
            pre_deep.lemma_flatten_push(s@.subrange(last_end as int, n as int));
            assert(s@.take(last_end as int) + s@.subrange(last_end as int, n as int) =~= s@.take(
                n as int,
            ));
            assert(pre_deep.push(s@.subrange(last_end as int, n as int)) =~= pre_deep + seq![
                s@.subrange(last_end as int, n as int),
            ]);
        }
    } else {
        proof {
            assert(scan_sentences(s@, last_end as int, n as int) =~= Seq::<Seq<char>>::empty());
            assert(out.deep_view() + Seq::<Seq<char>>::empty() =~= out.deep_view());
        }
    }
    proof {
        assert(s@.take(n as int) =~= s@);
        assert(out.deep_view() == scan_sentences(s@, 0, 0));
    }
    if out.len() == 0 {
        // no boundary was found and nothing remained: the text is empty and
        // is returned whole as the single sentence
        proof {
            assert(out.deep_view().len() == 0);
            assert(out.deep_view() =~= Seq::<Seq<char>>::empty());
            assert(Seq::<Seq<char>>::empty().flatten() =~= Seq::<char>::empty());
            assert(s@.len() == 0);
        }
        let mut single: Vec<String> = Vec::new();
        let whole = chars_to_string(&s);
        let ghost pre_deep = single.deep_view();
        single.push(whole);
        proof {
            assert(single.deep_view() =~= pre_deep.push(s@));
            pre_deep.lemma_flatten_push(s@);
            assert(pre_deep.flatten() =~= Seq::<char>::empty());
            assert(Seq::<char>::empty() + s@ =~= s@);
        }
        return single;
    }
    out
}

} // verus!
