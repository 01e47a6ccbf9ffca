//! Text normalization: canonical Unicode decomposition, removal of emoji
//! and symbol ranges, replacement of typographic variants with plain ASCII,
//! expansion of a few literal abbreviations, punctuation spacing fixes,
//! whitespace collapsing, a guaranteed terminal punctuation mark, and
//! wrapping in a language tag.

use vstd::prelude::*;

use crate::errors::TtsError;
use crate::lang::is_supported_lang;
use crate::textutil::{chars_to_string, extend_chars, str_to_chars};

use unicode_normalization::UnicodeNormalization;

verus! {

// ---------------------------------------------------------------------------
// Canonical decomposition (outside call)
// ---------------------------------------------------------------------------

/// The Unicode compatibility decomposition (NFKD) of a character sequence.
pub uninterp spec fn nfkd_of(s: Seq<char>) -> Seq<char>;

/// Relies on `unicode_normalization`'s `nfkd`: the iterator yields the
/// compatibility decomposition (Unicode Normalization Form KD, UAX #15) of
/// the input characters.  The result depends on the characters alone; UAX #15
/// states that normalization is idempotent and that the normalization of the
/// empty string is empty.
#[verifier::external_body]
fn nfkd(s: &str) -> (r: String)
    ensures
        r@ == nfkd_of(s@),
        nfkd_of(r@) == r@,
        s@.len() == 0 ==> r@.len() == 0,
{
    s.nfkd().collect()
}

// ---------------------------------------------------------------------------
// Character classes
// ---------------------------------------------------------------------------

/// Characters in the defined emoji/pictograph code-point ranges.
pub open spec fn is_emoji_char(c: char) -> bool {
    ||| '\u{1F600}' <= c <= '\u{1F64F}'
    ||| '\u{1F300}' <= c <= '\u{1F5FF}'
    ||| '\u{1F680}' <= c <= '\u{1F6FF}'
    ||| '\u{1F700}' <= c <= '\u{1F77F}'
    ||| '\u{1F780}' <= c <= '\u{1F7FF}'
    ||| '\u{1F800}' <= c <= '\u{1F8FF}'
    ||| '\u{1F900}' <= c <= '\u{1F9FF}'
    ||| '\u{1FA00}' <= c <= '\u{1FA6F}'
    ||| '\u{1FA70}' <= c <= '\u{1FAFF}'
    ||| '\u{2600}' <= c <= '\u{26FF}'
    ||| '\u{2700}' <= c <= '\u{27BF}'
    ||| '\u{1F1E6}' <= c <= '\u{1F1FF}'
}

/// Characters removed outright: the emoji ranges and a few special symbols.
pub open spec fn is_removed_char(c: char) -> bool {
    ||| is_emoji_char(c)
    ||| c == '\u{2665}'
    ||| c == '\u{2606}'
    ||| c == '\u{2661}'
    ||| c == '\u{00A9}'
    ||| c == '\\'
}

/// The single-character typographic substitutions: dashes, smart quotes,
/// accents, brackets, slashes, arrows, each to a plain ASCII equivalent.
pub open spec fn subst_one(c: char) -> Option<char> {
    if c == '\u{2013}' || c == '\u{2011}' || c == '\u{2014}' {
        Some('-')
    } else if c == '_' || c == '[' || c == ']' || c == '|' || c == '/' || c == '#'
        || c == '\u{2192}' || c == '\u{2190}' {
        Some(' ')
    } else if c == '\u{201C}' || c == '\u{201D}' {
        Some('"')
    } else if c == '\u{2018}' || c == '\u{2019}' || c == '\u{00B4}' || c == '`' {
        Some('\'')
    } else {
        None
    }
}

/// What one input character contributes to the substituted text.
pub open spec fn subst_char(c: char) -> Seq<char> {
    if is_removed_char(c) {
        Seq::empty()
    } else if c == '@' {
        seq![' ', 'a', 't', ' ']
    } else {
        match subst_one(c) {
            Some(d) => seq![d],
            None => seq![c],
        }
    }
}

/// The whole substitution pass over a character sequence.
pub open spec fn apply_subst(s: Seq<char>) -> Seq<char>
    decreases s.len(),
{
    if s.len() == 0 {
        Seq::empty()
    } else {
        subst_char(s[0]) + apply_subst(s.skip(1))
    }
}

proof fn lemma_apply_subst_concat(a: Seq<char>, b: Seq<char>)
    ensures
        apply_subst(a + b) == apply_subst(a) + apply_subst(b),
    decreases a.len(),
{
    if a.len() == 0 {
        assert(a + b =~= b);
        assert(apply_subst(a) =~= Seq::empty());
        assert(apply_subst(a) + apply_subst(b) =~= apply_subst(b));
    } else {
        lemma_apply_subst_concat(a.skip(1), b);
        assert((a + b).skip(1) =~= a.skip(1) + b);
        assert((a + b)[0] == a[0]);
        assert(subst_char(a[0]) + (apply_subst(a.skip(1)) + apply_subst(b)) =~= (subst_char(a[0])
            + apply_subst(a.skip(1))) + apply_subst(b));
    }
}

proof fn lemma_apply_subst_snoc(s: Seq<char>, c: char)
    ensures
        apply_subst(s.push(c)) == apply_subst(s) + subst_char(c),
{
    assert(s.push(c) =~= s + seq![c]);
    lemma_apply_subst_concat(s, seq![c]);
    assert(seq![c].skip(1) =~= Seq::<char>::empty());
    assert(apply_subst(seq![c].skip(1)) =~= Seq::<char>::empty());
    assert(apply_subst(seq![c]) == subst_char(c) + apply_subst(seq![c].skip(1)));
    assert(subst_char(c) + Seq::<char>::empty() =~= subst_char(c));
}

fn is_emoji_char_exec(c: char) -> (r: bool)
    ensures
        r == is_emoji_char(c),
{
    ('\u{1F600}' <= c && c <= '\u{1F64F}') || ('\u{1F300}' <= c && c <= '\u{1F5FF}') || ('\u{1F680}'
        <= c && c <= '\u{1F6FF}') || ('\u{1F700}' <= c && c <= '\u{1F77F}') || ('\u{1F780}' <= c
        && c <= '\u{1F7FF}') || ('\u{1F800}' <= c && c <= '\u{1F8FF}') || ('\u{1F900}' <= c && c
        <= '\u{1F9FF}') || ('\u{1FA00}' <= c && c <= '\u{1FA6F}') || ('\u{1FA70}' <= c && c
        <= '\u{1FAFF}') || ('\u{2600}' <= c && c <= '\u{26FF}') || ('\u{2700}' <= c && c
        <= '\u{27BF}') || ('\u{1F1E6}' <= c && c <= '\u{1F1FF}')
}

/// The substitution pass: removes emoji and special symbols, maps
/// typographic variants to ASCII, and expands `@` to " at ".
fn apply_subst_exec(s: &Vec<char>) -> (r: Vec<char>)
    ensures
        r@ == apply_subst(s@),
{
    let mut out: Vec<char> = Vec::new();
    let mut i: usize = 0;
    while i < s.len()
        invariant
            i <= s.len(),
            out@ == apply_subst(s@.take(i as int)),
        decreases s.len() - i,
    {
        let c = s[i];
        proof {
            assert(s@.take(i + 1int) =~= s@.take(i as int).push(s@[i as int]));
            lemma_apply_subst_snoc(s@.take(i as int), s@[i as int]);
        }
        if is_emoji_char_exec(c) || c == '\u{2665}' || c == '\u{2606}' || c == '\u{2661}' || c
            == '\u{00A9}' || c == '\\' {
            // removed outright
        } else if c == '@' {
            out.push(' ');
            out.push('a');
            out.push('t');
            out.push(' ');
            assert(out@ =~= apply_subst(s@.take(i as int)) + subst_char(c));
        } else if c == '\u{2013}' || c == '\u{2011}' || c == '\u{2014}' {
            out.push('-');
        } else if c == '_' || c == '[' || c == ']' || c == '|' || c == '/' || c == '#' || c
            == '\u{2192}' || c == '\u{2190}' {
            out.push(' ');
        } else if c == '\u{201C}' || c == '\u{201D}' {
            out.push('"');
        } else if c == '\u{2018}' || c == '\u{2019}' || c == '\u{00B4}' || c == '`' {
            out.push('\'');
        } else {
            out.push(c);
        }
        assert(out@ =~= apply_subst(s@.take(i as int)) + subst_char(c));
        i += 1;
    }
    proof {
        assert(s@.take(s@.len() as int) =~= s@);
    }
    out
}

// ---------------------------------------------------------------------------
// Literal replacement (leftmost, non-overlapping)
// ---------------------------------------------------------------------------

/// `s` with every occurrence of `pat` replaced by `rep`, scanning left to
/// right over non-overlapping matches.
pub open spec fn replace_all_spec(s: Seq<char>, pat: Seq<char>, rep: Seq<char>) -> Seq<char>
    recommends
        pat.len() > 0,
    decreases s.len(),
    when pat.len() > 0
{
    if s.len() < pat.len() {
        s
    } else if s.take(pat.len() as int) == pat {
        rep + replace_all_spec(s.skip(pat.len() as int), pat, rep)
    } else {
        seq![s[0]] + replace_all_spec(s.skip(1), pat, rep)
    }
}

/// Whether `pat` occurs in `s` starting at `i`.
fn matches_at(s: &Vec<char>, i: usize, pat: &Vec<char>) -> (r: bool)
    requires
        i <= s.len(),
    ensures
        r == (i + pat@.len() <= s@.len() && s@.skip(i as int).take(pat@.len() as int) == pat@),
{
    if pat.len() > s.len() - i {
        assert(i + pat@.len() > s@.len());
        return false;
    }
    let mut j: usize = 0;
    while j < pat.len()
        invariant
            j <= pat.len(),
            i + pat.len() <= s.len(),
            forall|k: int| 0 <= k < j ==> s@[i + k] == pat@[k],
        decreases pat.len() - j,
    {
        if s[i + j] != pat[j] {
            assert(s@.skip(i as int).take(pat@.len() as int)[j as int] == s@[i + j]);
            assert(s@.skip(i as int).take(pat@.len() as int) != pat@);
            return false;
        }
        j += 1;
    }
    assert(s@.skip(i as int).take(pat@.len() as int) =~= pat@);
    true
}

/// Replaces every occurrence of `pat` in `s` by `rep`, scanning left to
/// right over non-overlapping matches.
pub fn replace_all(s: &Vec<char>, pat: &Vec<char>, rep: &Vec<char>) -> (r: Vec<char>)
    requires
        pat@.len() > 0,
    ensures
        r@ == replace_all_spec(s@, pat@, rep@),
{
    let mut out: Vec<char> = Vec::new();
    let mut i: usize = 0;
    proof {
        assert(s@.skip(0) =~= s@);
    }
    while i < s.len()
        invariant
            i <= s.len(),
            pat@.len() > 0,
            replace_all_spec(s@, pat@, rep@) == out@ + replace_all_spec(
                s@.skip(i as int),
                pat@,
                rep@,
            ),
        decreases s.len() - i,
    {
        let ghost rest = s@.skip(i as int);
        if matches_at(s, i, pat) {
            proof {
                assert(rest.len() >= pat@.len());
                assert(rest.take(pat@.len() as int) == pat@);
                assert(replace_all_spec(rest, pat@, rep@) == rep@ + replace_all_spec(
                    rest.skip(pat@.len() as int),
                    pat@,
                    rep@,
                ));
                assert(rest.skip(pat@.len() as int) =~= s@.skip(i + pat@.len()));
            }
            extend_chars(&mut out, rep);
            i += pat.len();
        } else {
            proof {
                if rest.len() < pat@.len() {
                    assert(replace_all_spec(rest, pat@, rep@) == rest);
                    assert(rest =~= seq![s@[i as int]] + rest.skip(1));
                    assert(replace_all_spec(rest.skip(1), pat@, rep@) == rest.skip(1)) by {
                        assert(rest.skip(1).len() < pat@.len());
                    }
                    assert(replace_all_spec(rest, pat@, rep@) == seq![s@[i as int]]
                        + replace_all_spec(rest.skip(1), pat@, rep@));
                } else {
                    assert(rest.take(pat@.len() as int) != pat@);
                    assert(rest[0] == s@[i as int]);
                    assert(replace_all_spec(rest, pat@, rep@) == seq![s@[i as int]]
                        + replace_all_spec(rest.skip(1), pat@, rep@));
                }
                assert(rest.skip(1) =~= s@.skip(i + 1int));
            }
            out.push(s[i]);
            i += 1;
        }
    }
    proof {
        assert(s@.skip(s@.len() as int) =~= Seq::<char>::empty());
        assert(replace_all_spec(Seq::<char>::empty(), pat@, rep@) == Seq::<char>::empty());
        assert(out@ + Seq::<char>::empty() =~= out@);
    }
    out
}


// ---------------------------------------------------------------------------
// Abbreviation expansion and punctuation spacing
// ---------------------------------------------------------------------------

pub open spec fn eg_pattern() -> Seq<char> {
    seq!['e', '.', 'g', '.', ',']
}

pub open spec fn eg_replacement() -> Seq<char> {
    seq!['f', 'o', 'r', ' ', 'e', 'x', 'a', 'm', 'p', 'l', 'e', ',', ' ']
}

pub open spec fn ie_pattern() -> Seq<char> {
    seq!['i', '.', 'e', '.', ',']
}

pub open spec fn ie_replacement() -> Seq<char> {
    seq!['t', 'h', 'a', 't', ' ', 'i', 's', ',', ' ']
}

/// Expands the literal abbreviations "e.g.," and "i.e.,".
pub open spec fn expand_expressions(s: Seq<char>) -> Seq<char> {
    replace_all_spec(
        replace_all_spec(s, eg_pattern(), eg_replacement()),
        ie_pattern(),
        ie_replacement(),
    )
}

/// Removes one space before the punctuation mark `p`, everywhere.
pub open spec fn strip_space_before(s: Seq<char>, p: char) -> Seq<char> {
    replace_all_spec(s, seq![' ', p], seq![p])
}

/// The punctuation marks whose preceding space is collapsed, in the order
/// the passes run.
pub open spec fn spacing_marks() -> Seq<char> {
    seq![',', '.', '!', '?', ';', ':', '\'']
}

/// Collapses a space before each of the common punctuation marks.
pub open spec fn fix_punct_spacing(s: Seq<char>) -> Seq<char> {
    strip_space_before(
        strip_space_before(
            strip_space_before(
                strip_space_before(
                    strip_space_before(strip_space_before(strip_space_before(s, ','), '.'), '!'),
                    '?',
                ),
                ';',
            ),
            ':',
        ),
        '\'',
    )
}

// ---------------------------------------------------------------------------
// Quote runs
// ---------------------------------------------------------------------------

/// The quote characters whose runs are collapsed to a single one.
pub open spec fn is_collapsible_quote(c: char) -> bool {
    c == '"' || c == '\'' || c == '`'
}

/// Collapse of quote runs, scanning with the previously kept character.
pub open spec fn collapse_runs_from(s: Seq<char>, prev: Option<char>) -> Seq<char>
    decreases s.len(),
{
    if s.len() == 0 {
        Seq::empty()
    } else if is_collapsible_quote(s[0]) && prev == Some(s[0]) {
        collapse_runs_from(s.skip(1), Some(s[0]))
    } else {
        seq![s[0]] + collapse_runs_from(s.skip(1), Some(s[0]))
    }
}

/// Runs of a quote character collapsed to a single occurrence.
pub open spec fn collapse_quotes(s: Seq<char>) -> Seq<char> {
    collapse_runs_from(s, None)
}

fn collapse_quotes_exec(s: &Vec<char>) -> (r: Vec<char>)
    ensures
        r@ == collapse_quotes(s@),
{
    let mut out: Vec<char> = Vec::new();
    let mut prev: Option<char> = None;
    let mut i: usize = 0;
    proof {
        assert(s@.skip(0) =~= s@);
    }
    while i < s.len()
        invariant
            i <= s.len(),
            collapse_quotes(s@) == out@ + collapse_runs_from(s@.skip(i as int), prev),
        decreases s.len() - i,
    {
        let c = s[i];
        proof {
            assert(s@.skip(i as int)[0] == s@[i as int]);
            assert(s@.skip(i as int).skip(1) =~= s@.skip(i + 1int));
        }
        let keep = match prev {
            Some(p) => !((c == '"' || c == '\'' || c == '`') && p == c),
            None => true,
        };
        if keep {
            out.push(c);
        }
        prev = Some(c);
        i += 1;
    }
    proof {
        assert(s@.skip(s@.len() as int) =~= Seq::<char>::empty());
        assert(out@ + Seq::<char>::empty() =~= out@);
    }
    out
}

// ---------------------------------------------------------------------------
// Whitespace
// ---------------------------------------------------------------------------

/// The Unicode whitespace characters (the `White_Space` property).
pub open spec fn is_space_char(c: char) -> bool {
    ||| '\u{0009}' <= c <= '\u{000D}'
    ||| c == ' '
    ||| c == '\u{0085}'
    ||| c == '\u{00A0}'
    ||| c == '\u{1680}'
    ||| '\u{2000}' <= c <= '\u{200A}'
    ||| c == '\u{2028}'
    ||| c == '\u{2029}'
    ||| c == '\u{202F}'
    ||| c == '\u{205F}'
    ||| c == '\u{3000}'
}

pub fn is_space_char_exec(c: char) -> (r: bool)
    ensures
        r == is_space_char(c),
{
    ('\u{0009}' <= c && c <= '\u{000D}') || c == ' ' || c == '\u{0085}' || c == '\u{00A0}' || c
        == '\u{1680}' || ('\u{2000}' <= c && c <= '\u{200A}') || c == '\u{2028}' || c == '\u{2029}'
        || c == '\u{202F}' || c == '\u{205F}' || c == '\u{3000}'
}

/// Collapse of whitespace runs, scanning with a flag for a pending run.
pub open spec fn collapse_ws_from(s: Seq<char>, prev_space: bool) -> Seq<char>
    decreases s.len(),
{
    if s.len() == 0 {
        Seq::empty()
    } else if is_space_char(s[0]) {
        if prev_space {
            collapse_ws_from(s.skip(1), true)
        } else {
            seq![' '] + collapse_ws_from(s.skip(1), true)
        }
    } else {
        seq![s[0]] + collapse_ws_from(s.skip(1), false)
    }
}

/// Every run of whitespace replaced by a single space.
pub open spec fn collapse_whitespace(s: Seq<char>) -> Seq<char> {
    collapse_ws_from(s, false)
}

fn collapse_whitespace_exec(s: &Vec<char>) -> (r: Vec<char>)
    ensures
        r@ == collapse_whitespace(s@),
{
    let mut out: Vec<char> = Vec::new();
    let mut prev_space = false;
    let mut i: usize = 0;
    proof {
        assert(s@.skip(0) =~= s@);
    }
    while i < s.len()
        invariant
            i <= s.len(),
            collapse_whitespace(s@) == out@ + collapse_ws_from(s@.skip(i as int), prev_space),
        decreases s.len() - i,
    {
        let c = s[i];
        proof {
            assert(s@.skip(i as int)[0] == s@[i as int]);
            assert(s@.skip(i as int).skip(1) =~= s@.skip(i + 1int));
        }
        if is_space_char_exec(c) {
            if !prev_space {
                out.push(' ');
            }
            prev_space = true;
        } else {
            out.push(c);
            prev_space = false;
        }
        i += 1;
    }
    proof {
        assert(s@.skip(s@.len() as int) =~= Seq::<char>::empty());
        assert(out@ + Seq::<char>::empty() =~= out@);
    }
    out
}

// ---------------------------------------------------------------------------
// Trimming
// ---------------------------------------------------------------------------

/// Leading spaces removed.
pub open spec fn trim_left(s: Seq<char>) -> Seq<char>
    decreases s.len(),
{
    if s.len() > 0 && s[0] == ' ' {
        trim_left(s.skip(1))
    } else {
        s
    }
}

/// Trailing spaces removed.
pub open spec fn trim_right(s: Seq<char>) -> Seq<char>
    decreases s.len(),
{
    if s.len() > 0 && s[s.len() - 1] == ' ' {
        trim_right(s.take(s.len() - 1))
    } else {
        s
    }
}

/// Spaces removed at both ends.
pub open spec fn trim_spaces(s: Seq<char>) -> Seq<char> {
    trim_right(trim_left(s))
}

fn trim_spaces_exec(s: &Vec<char>) -> (r: Vec<char>)
    ensures
        r@ == trim_spaces(s@),
{
    let mut a: usize = 0;
    proof {
        assert(s@.skip(0) =~= s@);
    }
    while a < s.len() && s[a] == ' '
        invariant
            a <= s.len(),
            trim_left(s@) == trim_left(s@.skip(a as int)),
        decreases s.len() - a,
    {
        proof {
            assert(s@.skip(a as int)[0] == s@[a as int]);
            assert(s@.skip(a as int).skip(1) =~= s@.skip(a + 1int));
        }
        a += 1;
    }
    proof {
        if a < s.len() {
            assert(s@.skip(a as int)[0] == s@[a as int]);
        } else {
            assert(s@.skip(a as int).len() == 0);
        }
        assert(trim_left(s@) == s@.skip(a as int));
    }
    let ghost left = s@.skip(a as int);
    let mut b: usize = s.len();
    proof {
        assert(left.take(b - a) =~= left);
    }
    while b > a && s[b - 1] == ' '
        invariant
            a <= b <= s.len(),
            trim_left(s@) == left,
            left == s@.skip(a as int),
            trim_right(left) == trim_right(left.take(b - a)),
        decreases b,
    {
        proof {
            let part = left.take(b - a);
            assert(part[part.len() - 1] == s@[b - 1int]);
            assert(part.take(part.len() - 1) =~= left.take(b - 1 - a));
        }
        b -= 1;
    }
    proof {
        let part = left.take(b - a);
        if b > a {
            assert(part[part.len() - 1] == s@[b - 1int]);
        }
        assert(trim_right(part) == part);
        assert(trim_spaces(s@) == left.take(b - a));
    }
    let mut out: Vec<char> = Vec::new();
    let mut k: usize = a;
    while k < b
        invariant
            a <= k <= b <= s.len(),
            out@ == s@.subrange(a as int, k as int),
        decreases b - k,
    {
        out.push(s[k]);
        assert(s@.subrange(a as int, k + 1int) =~= s@.subrange(a as int, k as int).push(
            s@[k as int],
        ));
        k += 1;
    }
    proof {
        assert(s@.subrange(a as int, b as int) =~= left.take(b - a));
    }
    out
}

// ---------------------------------------------------------------------------
// Terminal punctuation
// ---------------------------------------------------------------------------

/// The multi-script set of terminal punctuation, quote and closing-bracket
/// characters that end a normalized text.
pub open spec fn is_terminal_punct(c: char) -> bool {
    ||| c == '.' || c == '!' || c == '?' || c == ';' || c == ':' || c == ','
    ||| c == '\'' || c == '"' || c == '\u{201C}' || c == '\u{201D}' || c == '\u{2018}' || c
        == '\u{2019}'
    ||| c == ')' || c == ']' || c == '}'
    ||| c == '\u{2026}' || c == '\u{3002}' || c == '\u{300D}' || c == '\u{300F}' || c == '\u{3011}'
    ||| c == '\u{3009}' || c == '\u{300B}' || c == '\u{203A}' || c == '\u{00BB}'
}

fn is_terminal_punct_exec(c: char) -> (r: bool)
    ensures
        r == is_terminal_punct(c),
{
    c == '.' || c == '!' || c == '?' || c == ';' || c == ':' || c == ',' || c == '\'' || c == '"'
        || c == '\u{201C}' || c == '\u{201D}' || c == '\u{2018}' || c == '\u{2019}' || c == ')' || c
        == ']' || c == '}' || c == '\u{2026}' || c == '\u{3002}' || c == '\u{300D}' || c
        == '\u{300F}' || c == '\u{3011}' || c == '\u{3009}' || c == '\u{300B}' || c == '\u{203A}'
        || c == '\u{00BB}'
}

/// A terminal period appended when the text is non-empty and does not
/// already end in a recognized terminal character.
pub open spec fn ensure_terminal(s: Seq<char>) -> Seq<char> {
    if s.len() > 0 && !is_terminal_punct(s[s.len() - 1]) {
        s.push('.')
    } else {
        s
    }
}

// ---------------------------------------------------------------------------
// The full normalization
// ---------------------------------------------------------------------------

/// The textual transform applied after canonical decomposition:
/// substitution, abbreviation expansion, punctuation spacing, quote and
/// whitespace collapsing, trimming, and the terminal punctuation guarantee.
pub open spec fn norm_core(s: Seq<char>) -> Seq<char> {
    ensure_terminal(
        trim_spaces(
            collapse_whitespace(
                collapse_quotes(fix_punct_spacing(expand_expressions(apply_subst(s)))),
            ),
        ),
    )
}

/// `body` wrapped as `<lang>body</lang>`.
pub open spec fn wrap_lang(lang: Seq<char>, body: Seq<char>) -> Seq<char> {
    seq!['<'] + lang + seq!['>'] + body + seq!['<', '/'] + lang + seq!['>']
}

/// What `preprocess_text` returns on a supported language: the decomposed,
/// cleaned text wrapped in its language tag.
pub open spec fn normalize_text_spec(text: Seq<char>, lang: Seq<char>) -> Seq<char> {
    wrap_lang(lang, norm_core(nfkd_of(text)))
}

fn make1(a: char) -> (r: Vec<char>)
    ensures
        r@ == seq![a],
{
    let mut v: Vec<char> = Vec::new();
    v.push(a);
    assert(v@ =~= seq![a]);
    v
}

fn make2(a: char, b: char) -> (r: Vec<char>)
    ensures
        r@ == seq![a, b],
{
    let mut v: Vec<char> = Vec::new();
    v.push(a);
    v.push(b);
    assert(v@ =~= seq![a, b]);
    v
}

fn strip_space_before_exec(s: &Vec<char>, p: char) -> (r: Vec<char>)
    ensures
        r@ == strip_space_before(s@, p),
{
    let pat = make2(' ', p);
    let rep = make1(p);
    replace_all(s, &pat, &rep)
}

fn expand_expressions_exec(s: &Vec<char>) -> (r: Vec<char>)
    ensures
        r@ == expand_expressions(s@),
{
    let mut eg_pat: Vec<char> = Vec::new();
    eg_pat.push('e');
    eg_pat.push('.');
    eg_pat.push('g');
    eg_pat.push('.');
    eg_pat.push(',');
    assert(eg_pat@ =~= eg_pattern());
    let mut eg_rep: Vec<char> = Vec::new();
    eg_rep.push('f');
    eg_rep.push('o');
    eg_rep.push('r');
    eg_rep.push(' ');
    eg_rep.push('e');
    eg_rep.push('x');
    eg_rep.push('a');
    eg_rep.push('m');
    eg_rep.push('p');
    eg_rep.push('l');
    eg_rep.push('e');
    eg_rep.push(',');
    eg_rep.push(' ');
    assert(eg_rep@ =~= eg_replacement());
    let mut ie_pat: Vec<char> = Vec::new();
    ie_pat.push('i');
    ie_pat.push('.');
    ie_pat.push('e');
    ie_pat.push('.');
    ie_pat.push(',');
    assert(ie_pat@ =~= ie_pattern());
    let mut ie_rep: Vec<char> = Vec::new();
    ie_rep.push('t');
    ie_rep.push('h');
    ie_rep.push('a');
    ie_rep.push('t');
    ie_rep.push(' ');
    ie_rep.push('i');
    ie_rep.push('s');
    ie_rep.push(',');
    ie_rep.push(' ');
    assert(ie_rep@ =~= ie_replacement());
    let step1 = replace_all(s, &eg_pat, &eg_rep);
    replace_all(&step1, &ie_pat, &ie_rep)
}

/// The whole cleaning pass on a character vector, without decomposition,
/// validation or wrapping.
fn norm_core_exec(v: &Vec<char>) -> (r: Vec<char>)
    ensures
        r@ == norm_core(v@),
{
    let substituted = apply_subst_exec(v);
    let expanded = expand_expressions_exec(&substituted);
    let sp1 = strip_space_before_exec(&expanded, ',');
    let sp2 = strip_space_before_exec(&sp1, '.');
    let sp3 = strip_space_before_exec(&sp2, '!');
    let sp4 = strip_space_before_exec(&sp3, '?');
    let sp5 = strip_space_before_exec(&sp4, ';');
    let sp6 = strip_space_before_exec(&sp5, ':');
    let sp7 = strip_space_before_exec(&sp6, '\'');
    let unquoted = collapse_quotes_exec(&sp7);
    let collapsed = collapse_whitespace_exec(&unquoted);
    let mut trimmed = trim_spaces_exec(&collapsed);
    if trimmed.len() > 0 {
        let last = trimmed[trimmed.len() - 1];
        if !is_terminal_punct_exec(last) {
            trimmed.push('.');
        }
    }
    trimmed
}

/// Normalizes `text` for synthesis in `lang`: canonical Unicode
/// decomposition, emoji and symbol removal, typographic substitution,
/// abbreviation expansion, punctuation spacing and quote cleanup,
/// whitespace collapsing and trimming, a guaranteed terminal punctuation
/// mark, and wrapping as `<lang>text</lang>`.  Fails with `InvalidLanguage`
/// if and only if `lang` is not in the supported set.
pub fn preprocess_text(text: &str, lang: &str) -> (r: Result<String, TtsError>)
    ensures
        r is Ok <==> is_supported_lang(lang@),
        r matches Ok(t) ==> t@ == normalize_text_spec(text@, lang@),
        r matches Err(e) ==> e == TtsError::InvalidLanguage,
{
    let decomposed = nfkd(text);
    let v = str_to_chars(decomposed.as_str());
    let cleaned = norm_core_exec(&v);
    if !crate::lang::is_valid_lang(lang) {
        return Err(TtsError::InvalidLanguage);
    }
    let lang_chars = str_to_chars(lang);
    let mut out: Vec<char> = Vec::new();
    out.push('<');
    extend_chars(&mut out, &lang_chars);
    out.push('>');
    extend_chars(&mut out, &cleaned);
    out.push('<');
    out.push('/');
    extend_chars(&mut out, &lang_chars);
    out.push('>');
    proof {
        assert(out@ =~= wrap_lang(lang@, norm_core(nfkd_of(text@))));
    }
    Ok(chars_to_string(&out))
}


// ---------------------------------------------------------------------------
// General whitespace trimming (any whitespace character, both ends)
// ---------------------------------------------------------------------------

/// Leading whitespace removed.
pub open spec fn trim_ws_left(s: Seq<char>) -> Seq<char>
    decreases s.len(),
{
    if s.len() > 0 && is_space_char(s[0]) {
        trim_ws_left(s.skip(1))
    } else {
        s
    }
}

/// Trailing whitespace removed.
pub open spec fn trim_ws_right(s: Seq<char>) -> Seq<char>
    decreases s.len(),
{
    if s.len() > 0 && is_space_char(s[s.len() - 1]) {
        trim_ws_right(s.take(s.len() - 1))
    } else {
        s
    }
}

/// Whitespace removed at both ends, as `str::trim` does.
pub open spec fn trim_ws(s: Seq<char>) -> Seq<char> {
    trim_ws_right(trim_ws_left(s))
}

/// Removes whitespace at both ends of `s`.
pub fn trim_ws_exec(s: &Vec<char>) -> (r: Vec<char>)
    ensures
        r@ == trim_ws(s@),
{
    let mut a: usize = 0;
    proof {
        assert(s@.skip(0) =~= s@);
    }
    while a < s.len() && is_space_char_exec(s[a])
        invariant
            a <= s.len(),
            trim_ws_left(s@) == trim_ws_left(s@.skip(a as int)),
        decreases s.len() - a,
    {
        proof {
            assert(s@.skip(a as int)[0] == s@[a as int]);
            assert(s@.skip(a as int).skip(1) =~= s@.skip(a + 1int));
        }
        a += 1;
    }
    proof {
        if a < s.len() {
            assert(s@.skip(a as int)[0] == s@[a as int]);
        } else {
            assert(s@.skip(a as int).len() == 0);
        }
        assert(trim_ws_left(s@) == s@.skip(a as int));
    }
    let ghost left = s@.skip(a as int);
    let mut b: usize = s.len();
    proof {
        assert(left.take(b - a) =~= left);
    }
    while b > a && is_space_char_exec(s[b - 1])
        invariant
            a <= b <= s.len(),
            left == s@.skip(a as int),
            trim_ws_right(left) == trim_ws_right(left.take(b - a)),
        decreases b,
    {
        proof {
            let part = left.take(b - a);
            assert(part[part.len() - 1] == s@[b - 1int]);
            assert(part.take(part.len() - 1) =~= left.take(b - 1 - a));
        }
        b -= 1;
    }
    proof {
        let part = left.take(b - a);
        if b > a {
            assert(part[part.len() - 1] == s@[b - 1int]);
        }
        assert(trim_ws_right(part) == part);
        assert(trim_ws(s@) == left.take(b - a));
        assert(s@.subrange(a as int, b as int) =~= left.take(b - a));
    }
    crate::textutil::sub_chars(s, a, b)
}


// ---------------------------------------------------------------------------
// Idempotence of the cleaning pass
// ---------------------------------------------------------------------------

/// Whether `pat` occurs anywhere in `s`.
pub open spec fn has_match(s: Seq<char>, pat: Seq<char>) -> bool {
    exists|i: int| 0 <= i <= s.len() - pat.len() && #[trigger] s.subrange(i, i + pat.len()) == pat
}

proof fn lemma_replace_all_identity(s: Seq<char>, pat: Seq<char>, rep: Seq<char>)
    requires
        pat.len() > 0,
        !has_match(s, pat),
    ensures
        replace_all_spec(s, pat, rep) == s,
    decreases s.len(),
{
    if s.len() < pat.len() {
    } else {
        assert(s.take(pat.len() as int) != pat) by {
            if s.take(pat.len() as int) == pat {
                assert(s.subrange(0int, 0int + pat.len()) =~= s.take(pat.len() as int));
                assert(has_match(s, pat));
            }
        }
        assert(!has_match(s.skip(1), pat)) by {
            if has_match(s.skip(1), pat) {
                let i = choose|i: int|
                    0 <= i <= s.skip(1).len() - pat.len() && #[trigger] s.skip(1).subrange(
                        i,
                        i + pat.len(),
                    ) == pat;
                assert(s.subrange(i + 1, (i + 1) + pat.len()) =~= s.skip(1).subrange(
                    i,
                    i + pat.len(),
                ));
                assert(has_match(s, pat));
            }
        }
        lemma_replace_all_identity(s.skip(1), pat, rep);
        assert(seq![s[0]] + s.skip(1) =~= s);
    }
}

/// A character the substitution pass leaves alone.
pub open spec fn subst_fixed_char(c: char) -> bool {
    subst_char(c) == seq![c]
}

proof fn lemma_apply_subst_identity(s: Seq<char>)
    requires
        forall|i: int| 0 <= i < s.len() ==> subst_fixed_char(#[trigger] s[i]),
    ensures
        apply_subst(s) == s,
    decreases s.len(),
{
    if s.len() == 0 {
    } else {
        lemma_apply_subst_identity(s.skip(1));
        assert(subst_char(s[0]) == seq![s[0]]);
        assert(seq![s[0]] + s.skip(1) =~= s);
    }
}

proof fn lemma_collapse_quotes_identity(s: Seq<char>, prev: Option<char>)
    requires
        forall|i: int| 0 < i < s.len() ==> !(is_collapsible_quote(#[trigger] s[i]) && s[i] == s[i - 1]),
        s.len() > 0 ==> !(is_collapsible_quote(s[0]) && prev == Some(s[0])),
    ensures
        collapse_runs_from(s, prev) == s,
    decreases s.len(),
{
    if s.len() == 0 {
    } else {
        assert(forall|i: int|
            0 < i < s.skip(1).len() ==> #[trigger] s.skip(1)[i] == s[i + 1] && s.skip(1)[i - 1]
                == s[i]);
        lemma_collapse_quotes_identity(s.skip(1), Some(s[0]));
        assert(seq![s[0]] + s.skip(1) =~= s);
    }
}

proof fn lemma_collapse_ws_identity(s: Seq<char>, prev_space: bool)
    requires
        forall|i: int| 0 <= i < s.len() ==> (is_space_char(#[trigger] s[i]) ==> s[i] == ' '),
        forall|i: int| 0 < i < s.len() ==> !(#[trigger] s[i] == ' ' && s[i - 1] == ' '),
        prev_space && s.len() > 0 ==> !is_space_char(s[0]),
    ensures
        collapse_ws_from(s, prev_space) == s,
    decreases s.len(),
{
    if s.len() == 0 {
    } else {
        assert(forall|i: int|
            0 < i < s.skip(1).len() ==> #[trigger] s.skip(1)[i] == s[i + 1] && s.skip(1)[i - 1]
                == s[i]);
        assert(forall|i: int| 0 <= i < s.skip(1).len() ==> #[trigger] s.skip(1)[i] == s[i + 1]);
        if is_space_char(s[0]) {
            assert(s[0] == ' ');
            lemma_collapse_ws_identity(s.skip(1), true);
        } else {
            lemma_collapse_ws_identity(s.skip(1), false);
        }
        assert(seq![s[0]] + s.skip(1) =~= s);
    }
}

/// Text that every stage of the cleaning pass leaves unchanged: no
/// substitutable or removed characters, no literal abbreviations, no space
/// before punctuation, no doubled quotes, single plain spaces only, no
/// space at either end, and terminal punctuation already present.
pub open spec fn is_clean(s: Seq<char>) -> bool {
    &&& forall|i: int| 0 <= i < s.len() ==> subst_fixed_char(#[trigger] s[i])
    &&& !has_match(s, eg_pattern())
    &&& !has_match(s, ie_pattern())
    &&& forall|k: int|
        0 <= k < spacing_marks().len() ==> !has_match(s, seq![' ', #[trigger] spacing_marks()[k]])
    &&& forall|i: int| 0 < i < s.len() ==> !(is_collapsible_quote(#[trigger] s[i]) && s[i] == s[i - 1])
    &&& forall|i: int| 0 <= i < s.len() ==> (is_space_char(#[trigger] s[i]) ==> s[i] == ' ')
    &&& forall|i: int| 0 < i < s.len() ==> !(#[trigger] s[i] == ' ' && s[i - 1] == ' ')
    &&& s.len() > 0 ==> s[0] != ' ' && s[s.len() - 1] != ' '
    &&& s.len() > 0 ==> is_terminal_punct(s[s.len() - 1])
}

/// The cleaning pass is idempotent: text that is already clean passes
/// through every stage unchanged.  (The language-tag wrapper is applied
/// after the pass and is not itself clean: wrapped text would gain a
/// fresh terminal period, so idempotence holds of the pass, not of the
/// wrapping.)
pub proof fn lemma_norm_core_idempotent(s: Seq<char>)
    requires
        is_clean(s),
    ensures
        norm_core(s) == s,
{
    lemma_apply_subst_identity(s);
    lemma_replace_all_identity(s, eg_pattern(), eg_replacement());
    lemma_replace_all_identity(s, ie_pattern(), ie_replacement());
    assert(spacing_marks()[0] == ',');
    assert(spacing_marks()[1] == '.');
    assert(spacing_marks()[2] == '!');
    assert(spacing_marks()[3] == '?');
    assert(spacing_marks()[4] == ';');
    assert(spacing_marks()[5] == ':');
    assert(spacing_marks()[6] == '\'');
    lemma_replace_all_identity(s, seq![' ', ','], seq![',']);
    lemma_replace_all_identity(s, seq![' ', '.'], seq!['.']);
    lemma_replace_all_identity(s, seq![' ', '!'], seq!['!']);
    lemma_replace_all_identity(s, seq![' ', '?'], seq!['?']);
    lemma_replace_all_identity(s, seq![' ', ';'], seq![';']);
    lemma_replace_all_identity(s, seq![' ', ':'], seq![':']);
    lemma_replace_all_identity(s, seq![' ', '\''], seq!['\'']);
    lemma_collapse_quotes_identity(s, None);
    lemma_collapse_ws_identity(s, false);
    assert(trim_left(s) == s);
    assert(trim_right(s) == s);
    assert(ensure_terminal(s) == s);
}

/// Normalization is idempotent on already-normalized text: a text in
/// canonical decomposition whose characters are already clean passes
/// through the whole transform unchanged, and only the language tag is
/// added around it.
pub proof fn lemma_normalize_idempotent(t: Seq<char>, l: Seq<char>)
    requires
        nfkd_of(t) == t,
        is_clean(t),
    ensures
        normalize_text_spec(t, l) == wrap_lang(l, t),
{
    lemma_norm_core_idempotent(t);
}

} // verus!
