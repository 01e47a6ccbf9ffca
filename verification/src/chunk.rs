//! Chunking: packs text into bounded-length synthesis units.  Paragraphs
//! under the limit become chunks directly; oversized paragraphs are packed
//! sentence by sentence; an oversized sentence is split on commas, and an
//! oversized comma part is split on whitespace and packed word by word.
//! A single word longer than the bound is emitted as its own oversized
//! chunk rather than truncated.

use vstd::prelude::*;

use crate::segment::{split_sentences, split_sentences_spec};
use crate::textnorm::{is_space_char, is_space_char_exec, trim_ws};
use crate::textutil::{chars_to_string, str_to_chars, sub_chars};

verus! {

/// The default chunk length bound.
pub const MAX_CHUNK_LENGTH: usize = 300;

// ---------------------------------------------------------------------------
// Small facts about trimming
// ---------------------------------------------------------------------------

proof fn lemma_trim_left_head(s: Seq<char>)
    ensures
        crate::textnorm::trim_ws_left(s).len() > 0 ==> !is_space_char(
            crate::textnorm::trim_ws_left(s)[0],
        ),
        crate::textnorm::trim_ws_left(s).len() > 0 ==> crate::textnorm::trim_ws_left(s)[crate::textnorm::trim_ws_left(
            s,
        ).len() - 1] == s[s.len() - 1],
        crate::textnorm::trim_ws_left(s).len() <= s.len(),
    decreases s.len(),
{
    if s.len() > 0 && is_space_char(s[0]) {
        lemma_trim_left_head(s.skip(1));
        if crate::textnorm::trim_ws_left(s).len() > 0 {
            assert(s.skip(1)[s.skip(1).len() - 1] == s[s.len() - 1]);
        }
    }
}

proof fn lemma_trim_right_last(t: Seq<char>)
    ensures
        crate::textnorm::trim_ws_right(t).len() > 0 ==> !is_space_char(
            crate::textnorm::trim_ws_right(t)[crate::textnorm::trim_ws_right(t).len() - 1],
        ),
        crate::textnorm::trim_ws_right(t).len() > 0 ==> crate::textnorm::trim_ws_right(t)[0]
            == t[0],
        crate::textnorm::trim_ws_right(t).len() <= t.len(),
    decreases t.len(),
{
    if t.len() > 0 && is_space_char(t[t.len() - 1]) {
        lemma_trim_right_last(t.take(t.len() - 1));
        if crate::textnorm::trim_ws_right(t).len() > 0 {
            assert(t.take(t.len() - 1)[0] == t[0]);
        }
    }
}

/// A non-empty trimmed text starts and ends with a non-whitespace character.
pub proof fn lemma_trim_ws_props(s: Seq<char>)
    ensures
        trim_ws(s).len() > 0 ==> !is_space_char(trim_ws(s)[0]),
        trim_ws(s).len() > 0 ==> !is_space_char(trim_ws(s)[trim_ws(s).len() - 1]),
{
    lemma_trim_left_head(s);
    lemma_trim_right_last(crate::textnorm::trim_ws_left(s));
}

// ---------------------------------------------------------------------------
// Splitting on a character, and on whitespace
// ---------------------------------------------------------------------------

/// Index of the first occurrence of `c` in `s`, or `s.len()` if none.
pub open spec fn find_first(s: Seq<char>, c: char) -> int
    decreases s.len(),
{
    if s.len() == 0 {
        0
    } else if s[0] == c {
        0
    } else {
        1 + find_first(s.skip(1), c)
    }
}

proof fn lemma_find_first_is(s: Seq<char>, c: char, i: int)
    requires
        0 <= i <= s.len(),
        forall|k: int| 0 <= k < i ==> s[k] != c,
        i < s.len() ==> s[i] == c,
    ensures
        find_first(s, c) == i,
    decreases s.len(),
{
    if s.len() == 0 {
    } else if s[0] == c {
        assert(i == 0);
    } else {
        assert(i >= 1);
        lemma_find_first_is(s.skip(1), c, i - 1);
    }
}

pub proof fn lemma_find_first_bounds(s: Seq<char>, c: char)
    ensures
        0 <= find_first(s, c) <= s.len(),
        forall|k: int| 0 <= k < find_first(s, c) ==> s[k] != c,
        find_first(s, c) < s.len() ==> s[find_first(s, c)] == c,
    decreases s.len(),
{
    if s.len() == 0 {
    } else if s[0] == c {
    } else {
        lemma_find_first_bounds(s.skip(1), c);
        assert(forall|k: int| 1 <= k < find_first(s, c) ==> s[k] == s.skip(1)[k - 1]);
    }
}

/// `s` split on `c`, keeping empty pieces, as `str::split` does.
pub open spec fn split_on(s: Seq<char>, c: char) -> Seq<Seq<char>>
    decreases s.len(),
    via split_on_decreases
{
    let i = find_first(s, c);
    if i >= s.len() {
        seq![s]
    } else {
        seq![s.take(i)] + split_on(s.skip(i + 1), c)
    }
}

#[via_fn]
proof fn split_on_decreases(s: Seq<char>, c: char) {
    lemma_find_first_bounds(s, c);
}

/// Index of the first whitespace character in `s`, or `s.len()` if none.
pub open spec fn find_first_ws(s: Seq<char>) -> int
    decreases s.len(),
{
    if s.len() == 0 {
        0
    } else if is_space_char(s[0]) {
        0
    } else {
        1 + find_first_ws(s.skip(1))
    }
}

proof fn lemma_find_first_ws_is(s: Seq<char>, i: int)
    requires
        0 <= i <= s.len(),
        forall|k: int| 0 <= k < i ==> !is_space_char(s[k]),
        i < s.len() ==> is_space_char(s[i]),
    ensures
        find_first_ws(s) == i,
    decreases s.len(),
{
    if s.len() == 0 {
    } else if is_space_char(s[0]) {
        assert(i == 0);
    } else {
        assert(i >= 1);
        lemma_find_first_ws_is(s.skip(1), i - 1);
    }
}

/// The whitespace-delimited words of `s`, as `str::split_whitespace` does:
/// maximal runs of non-whitespace characters, never empty.
pub open spec fn split_ws_units(s: Seq<char>) -> Seq<Seq<char>>
    decreases s.len(),
    via split_ws_units_decreases
{
    if s.len() == 0 {
        Seq::empty()
    } else if is_space_char(s[0]) {
        split_ws_units(s.skip(1))
    } else {
        let e = find_first_ws(s);
        seq![s.take(e)] + split_ws_units(s.skip(e))
    }
}

#[via_fn]
proof fn split_ws_units_decreases(s: Seq<char>) {
    lemma_find_first_ws_bounds(s);
}

/// Words contain no whitespace and are never empty.
proof fn lemma_split_ws_units_props(s: Seq<char>)
    ensures
        forall|k: int|
            0 <= k < split_ws_units(s).len() ==> (#[trigger] split_ws_units(s)[k]).len() > 0,
        forall|k: int, j: int|
            0 <= k < split_ws_units(s).len() && 0 <= j < split_ws_units(s)[k].len()
                ==> !is_space_char(#[trigger] split_ws_units(s)[k][j]),
    decreases s.len(),
{
    if s.len() == 0 {
        assert(split_ws_units(s).len() == 0);
    } else if is_space_char(s[0]) {
        lemma_split_ws_units_props(s.skip(1));
        assert(split_ws_units(s) == split_ws_units(s.skip(1)));
    } else {
        let e = find_first_ws(s);
        lemma_find_first_ws_bounds(s);
        lemma_split_ws_units_props(s.skip(e));
        let u0 = s.take(e);
        assert(u0.len() > 0);
        assert(forall|j: int| 0 <= j < u0.len() ==> !is_space_char(u0[j]));
        assert forall|k: int|
            0 <= k < split_ws_units(s).len() implies (#[trigger] split_ws_units(s)[k]).len()
            > 0 by {
            if k == 0 {
                assert(split_ws_units(s)[0] == u0);
            } else {
                assert(split_ws_units(s)[k] == split_ws_units(s.skip(e))[k - 1]);
            }
        }
        assert forall|k: int, j: int|
            0 <= k < split_ws_units(s).len() && 0 <= j < split_ws_units(s)[k].len()
                implies !is_space_char(#[trigger] split_ws_units(s)[k][j]) by {
            if k == 0 {
                assert(split_ws_units(s)[0] == u0);
            } else {
                assert(split_ws_units(s)[k] == split_ws_units(s.skip(e))[k - 1]);
            }
        }
    }
}

proof fn lemma_find_first_ws_bounds(s: Seq<char>)
    ensures
        0 <= find_first_ws(s) <= s.len(),
        forall|k: int| 0 <= k < find_first_ws(s) ==> !is_space_char(s[k]),
        find_first_ws(s) < s.len() ==> is_space_char(s[find_first_ws(s)]),
    decreases s.len(),
{
    if s.len() == 0 {
    } else if is_space_char(s[0]) {
    } else {
        lemma_find_first_ws_bounds(s.skip(1));
        assert(forall|k: int| 1 <= k < find_first_ws(s) ==> s[k] == s.skip(1)[k - 1]);
    }
}

/// Splits `v` on the character `c`, keeping empty pieces.
fn split_on_exec(v: &Vec<char>, c: char) -> (r: Vec<Vec<char>>)
    ensures
        r.deep_view() == split_on(v@, c),
{
    let n = v.len();
    let mut out: Vec<Vec<char>> = Vec::new();
    let mut start: usize = 0;
    let mut i: usize = 0;
    proof {
        assert(v@.skip(0) =~= v@);
    }
    while i < n
        invariant
            start <= i <= n,
            n == v@.len(),
            split_on(v@, c) == out.deep_view() + split_on(v@.skip(start as int), c),
            forall|k: int| start <= k < i ==> v@[k] != c,
        decreases n - i,
    {
        if v[i] == c {
            let ghost rest = v@.skip(start as int);
            proof {
                lemma_find_first_is(rest, c, i - start);
                assert(rest.take(i - start) =~= v@.subrange(start as int, i as int));
                assert(split_on(rest, c) == seq![rest.take(i - start)] + split_on(
                    rest.skip(i - start + 1),
                    c,
                ));
                assert(rest.skip(i - start + 1) =~= v@.skip(i + 1int));
            }
            let piece = sub_chars(v, start, i);
            let ghost pre_deep = out.deep_view();
            out.push(piece);
            proof {
                assert(out.deep_view() =~~= pre_deep.push(v@.subrange(start as int, i as int)));
                assert(pre_deep.push(v@.subrange(start as int, i as int)) =~= pre_deep + seq![
                    v@.subrange(start as int, i as int),
                ]);
            }
            start = i + 1;
        }
        i += 1;
    }
    let ghost rest = v@.skip(start as int);
    proof {
        lemma_find_first_is(rest, c, n - start);
        assert(split_on(rest, c) == seq![rest]);
        assert(rest =~= v@.subrange(start as int, n as int));
    }
    let piece = sub_chars(v, start, n);
    let ghost pre_deep = out.deep_view();
    out.push(piece);
    proof {
        assert(out.deep_view() =~~= pre_deep.push(rest));
        assert(pre_deep.push(rest) =~= pre_deep + seq![rest]);
    }
    out
}

/// Splits `v` into whitespace-delimited words.
fn split_ws_exec(v: &Vec<char>) -> (r: Vec<Vec<char>>)
    ensures
        r.deep_view() == split_ws_units(v@),
{
    let n = v.len();
    let mut out: Vec<Vec<char>> = Vec::new();
    let mut i: usize = 0;
    proof {
        assert(v@.skip(0) =~= v@);
    }
    while i < n
        invariant
            i <= n,
            n == v@.len(),
            split_ws_units(v@) == out.deep_view() + split_ws_units(v@.skip(i as int)),
        decreases n - i,
    {
        let ghost rest = v@.skip(i as int);
        if is_space_char_exec(v[i]) {
            proof {
                assert(rest[0] == v@[i as int]);
                assert(rest.skip(1) =~= v@.skip(i + 1int));
            }
            i += 1;
        } else {
            // scan the word
            let mut j: usize = i + 1;
            while j < n && !is_space_char_exec(v[j])
                invariant
                    i < j <= n,
                    n == v@.len(),
                    forall|k: int| i <= k < j ==> !is_space_char(v@[k]),
                decreases n - j,
            {
                j += 1;
            }
            proof {
                assert(rest[0] == v@[i as int]);
                lemma_find_first_ws_is(rest, j - i);
                assert(rest.take(j - i) =~= v@.subrange(i as int, j as int));
                assert(rest.skip(j - i) =~= v@.skip(j as int));
            }
            let word = sub_chars(v, i, j);
            let ghost pre_deep = out.deep_view();
            out.push(word);
            proof {
                assert(out.deep_view() =~~= pre_deep.push(v@.subrange(i as int, j as int)));
                assert(pre_deep.push(v@.subrange(i as int, j as int)) =~= pre_deep + seq![
                    v@.subrange(i as int, j as int),
                ]);
            }
            i = j;
        }
    }
    proof {
        assert(v@.skip(n as int).len() == 0);
        assert(split_ws_units(v@.skip(n as int)) =~= Seq::<Seq<char>>::empty());
        assert(out.deep_view() + Seq::<Seq<char>>::empty() =~= out.deep_view());
    }
    out
}

// ---------------------------------------------------------------------------
// Trim-and-filter of a unit list
// ---------------------------------------------------------------------------

/// Each unit trimmed, empty results dropped.
pub open spec fn trim_filter(units: Seq<Seq<char>>) -> Seq<Seq<char>>
    decreases units.len(),
{
    if units.len() == 0 {
        Seq::empty()
    } else {
        let t = trim_ws(units[0]);
        if t.len() > 0 {
            seq![t] + trim_filter(units.skip(1))
        } else {
            trim_filter(units.skip(1))
        }
    }
}

/// Trimmed-and-filtered units are non-empty and end in non-whitespace.
proof fn lemma_trim_filter_props(units: Seq<Seq<char>>)
    ensures
        forall|k: int|
            0 <= k < trim_filter(units).len() ==> {
                let u = #[trigger] trim_filter(units)[k];
                u.len() > 0 && !is_space_char(u[0]) && !is_space_char(u[u.len() - 1])
            },
    decreases units.len(),
{
    if units.len() == 0 {
    } else {
        lemma_trim_filter_props(units.skip(1));
        lemma_trim_ws_props(units[0]);
        let t = trim_ws(units[0]);
        assert forall|k: int| 0 <= k < trim_filter(units).len() implies {
            let u = #[trigger] trim_filter(units)[k];
            u.len() > 0 && !is_space_char(u[0]) && !is_space_char(u[u.len() - 1])
        } by {
            if t.len() > 0 {
                if k == 0 {
                    assert(trim_filter(units)[0] == t);
                } else {
                    assert(trim_filter(units)[k] == trim_filter(units.skip(1))[k - 1]);
                }
            } else {
                assert(trim_filter(units)[k] == trim_filter(units.skip(1))[k]);
            }
        }
    }
}

fn trim_filter_exec(units: &Vec<Vec<char>>) -> (r: Vec<Vec<char>>)
    ensures
        r.deep_view() == trim_filter(units.deep_view()),
{
    let mut out: Vec<Vec<char>> = Vec::new();
    let mut i: usize = 0;
    proof {
        assert(units.deep_view().skip(0) =~= units.deep_view());
    }
    while i < units.len()
        invariant
            i <= units.len(),
            trim_filter(units.deep_view()) == out.deep_view() + trim_filter(
                units.deep_view().skip(i as int),
            ),
        decreases units.len() - i,
    {
        let ghost rest = units.deep_view().skip(i as int);
        proof {
            assert(rest[0] == units.deep_view()[i as int]);
            assert(units.deep_view()[i as int] =~= units@[i as int]@);
            assert(rest.skip(1) =~= units.deep_view().skip(i + 1int));
        }
        let t = crate::textnorm::trim_ws_exec(&units[i]);
        if t.len() > 0 {
            let ghost pre_deep = out.deep_view();
            out.push(t);
            proof {
                assert(out.deep_view() =~~= pre_deep.push(trim_ws(rest[0])));
                assert(pre_deep.push(trim_ws(rest[0])) =~= pre_deep + seq![trim_ws(rest[0])]);
            }
        }
        i += 1;
    }
    proof {
        let tail = units.deep_view().skip(units@.len() as int);
        assert(tail.len() == 0);
        assert(trim_filter(tail) =~= Seq::<Seq<char>>::empty());
        assert(out.deep_view() + Seq::<Seq<char>>::empty() =~= out.deep_view());
    }
    out
}


// ---------------------------------------------------------------------------
// Greedy packing
// ---------------------------------------------------------------------------

/// The pending buffer as a chunk list: one chunk if non-empty, none if empty.
pub open spec fn emit(cur: Seq<char>) -> Seq<Seq<char>> {
    if cur.len() > 0 {
        seq![cur]
    } else {
        Seq::empty()
    }
}

/// Greedy packing of units into chunks of at most `max` characters, joined
/// by `sep`; a unit that cannot extend the running buffer starts a new
/// chunk, and a single unit longer than `max` becomes its own chunk.
pub open spec fn pack_rec(units: Seq<Seq<char>>, sep: Seq<char>, max: nat, cur: Seq<char>) -> Seq<
    Seq<char>,
>
    decreases units.len(),
{
    if units.len() == 0 {
        emit(cur)
    } else {
        let u = units[0];
        let rest = units.skip(1);
        if cur.len() == 0 {
            pack_rec(rest, sep, max, u)
        } else if cur.len() + sep.len() + u.len() > max {
            seq![cur] + pack_rec(rest, sep, max, u)
        } else {
            pack_rec(rest, sep, max, cur + sep + u)
        }
    }
}

/// An oversized comma part packed word by word, separator " ".
pub open spec fn chunk_words(part: Seq<char>, max: nat) -> Seq<Seq<char>> {
    pack_rec(split_ws_units(part), seq![' '], max, Seq::empty())
}

/// The trimmed, non-empty comma-delimited parts of an oversized sentence.
pub open spec fn comma_units(s: Seq<char>) -> Seq<Seq<char>> {
    trim_filter(split_on(s, ','))
}

/// Comma parts packed greedily with separator ", "; an oversized part is
/// split on whitespace and packed word by word.
pub open spec fn chunk_commas(parts: Seq<Seq<char>>, max: nat, cur: Seq<char>) -> Seq<Seq<char>>
    decreases parts.len(),
{
    if parts.len() == 0 {
        emit(cur)
    } else {
        let u = parts[0];
        let rest = parts.skip(1);
        if u.len() > max {
            emit(cur) + chunk_words(u, max) + chunk_commas(rest, max, Seq::empty())
        } else if cur.len() == 0 {
            chunk_commas(rest, max, u)
        } else if cur.len() + 2 + u.len() > max {
            seq![cur] + chunk_commas(rest, max, u)
        } else {
            chunk_commas(rest, max, cur + seq![',', ' '] + u)
        }
    }
}

/// Sentences packed greedily with separator " "; an oversized sentence is
/// split on commas.
pub open spec fn chunk_sentences(sents: Seq<Seq<char>>, max: nat, cur: Seq<char>) -> Seq<Seq<char>>
    decreases sents.len(),
{
    if sents.len() == 0 {
        emit(cur)
    } else {
        let u = sents[0];
        let rest = sents.skip(1);
        if u.len() > max {
            emit(cur) + chunk_commas(comma_units(u), max, Seq::empty()) + chunk_sentences(
                rest,
                max,
                Seq::empty(),
            )
        } else if cur.len() == 0 {
            chunk_sentences(rest, max, u)
        } else if cur.len() + 1 + u.len() > max {
            seq![cur] + chunk_sentences(rest, max, u)
        } else {
            chunk_sentences(rest, max, cur + seq![' '] + u)
        }
    }
}

/// A well-formed unit: non-empty, not starting or ending in whitespace.
pub open spec fn unit_ok(u: Seq<char>) -> bool {
    u.len() > 0 && !is_space_char(u[0]) && !is_space_char(u[u.len() - 1])
}

/// All units well-formed.
pub open spec fn units_ok(units: Seq<Seq<char>>) -> bool {
    forall|k: int| 0 <= k < units.len() ==> unit_ok(#[trigger] units[k])
}

/// A well-formed chunk: a well-formed unit that fits the bound, unless it
/// is a single indivisible word.
pub open spec fn chunk_ok(c: Seq<char>, max: nat) -> bool {
    unit_ok(c) && (c.len() <= max || forall|j: int| 0 <= j < c.len() ==> !is_space_char(c[j]))
}

/// All chunks well-formed.
pub open spec fn chunks_ok(cs: Seq<Seq<char>>, max: nat) -> bool {
    forall|k: int| 0 <= k < cs.len() ==> chunk_ok(#[trigger] cs[k], max)
}

/// Whether joining `cur` and `u` with a separator of length `sep_len`
/// would exceed `max`, computed without overflow.
fn would_exceed(cur_len: usize, sep_len: usize, u_len: usize, max: usize) -> (r: bool)
    ensures
        r == (cur_len + sep_len + u_len > max),
{
    if cur_len > max {
        true
    } else if sep_len > max - cur_len {
        true
    } else {
        u_len > max - cur_len - sep_len
    }
}

/// Copies the chunks of `src` onto the end of `dst`.
fn append_chunks(dst: &mut Vec<Vec<char>>, src: &Vec<Vec<char>>)
    ensures
        final(dst).deep_view() == old(dst).deep_view() + src.deep_view(),
{
    let mut i: usize = 0;
    while i < src.len()
        invariant
            i <= src.len(),
            dst.deep_view() == old(dst).deep_view() + src.deep_view().take(i as int),
        decreases src.len() - i,
    {
        let mut c: Vec<char> = Vec::new();
        crate::textutil::extend_chars(&mut c, &src[i]);
        let ghost pre_deep = dst.deep_view();
        dst.push(c);
        proof {
            assert(src.deep_view()[i as int] =~= src@[i as int]@);
            assert(dst.deep_view() =~~= pre_deep.push(src.deep_view()[i as int]));
            assert(src.deep_view().take(i + 1int) =~= src.deep_view().take(i as int).push(
                src.deep_view()[i as int],
            ));
            assert(old(dst).deep_view() + src.deep_view().take(i + 1int) =~= pre_deep.push(
                src.deep_view()[i as int],
            ));
        }
        i += 1;
    }
    proof {
        assert(src.deep_view().take(src@.len() as int) =~= src.deep_view());
    }
}

/// Packs an oversized comma part word by word.
fn chunk_words_exec(part: &Vec<char>, max: usize) -> (r: Vec<Vec<char>>)
    ensures
        r.deep_view() == chunk_words(part@, max as nat),
        chunks_ok(r.deep_view(), max as nat),
{
    let words = split_ws_exec(part);
    proof {
        lemma_split_ws_units_props(part@);
        assert(words.deep_view().skip(0) =~= words.deep_view());
    }
    let ghost all = words.deep_view();
    let mut out: Vec<Vec<char>> = Vec::new();
    let mut cur: Vec<char> = Vec::new();
    let mut i: usize = 0;
    proof {
        assert(out.deep_view() =~= Seq::<Seq<char>>::empty());
        assert(Seq::<Seq<char>>::empty() + pack_rec(all, seq![' '], max as nat, cur@) =~= pack_rec(
            all,
            seq![' '],
            max as nat,
            cur@,
        ));
    }
    while i < words.len()
        invariant
            i <= words.len(),
            all == words.deep_view(),
            all == split_ws_units(part@),
            chunk_words(part@, max as nat) == out.deep_view() + pack_rec(
                all.skip(i as int),
                seq![' '],
                max as nat,
                cur@,
            ),
            chunks_ok(out.deep_view(), max as nat),
            cur@.len() > 0 ==> chunk_ok(cur@, max as nat),
        decreases words.len() - i,
    {
        let ghost rest = all.skip(i as int);
        proof {
            assert(rest[0] == all[i as int]);
            assert(rest.skip(1) =~= all.skip(i + 1int));
            assert(words.deep_view()[i as int] =~= words@[i as int]@);
        }
        let w = &words[i];
        let ghost u = all[i as int];
        proof {
            lemma_split_ws_units_props(part@);
            assert(u == split_ws_units(part@)[i as int]);
            assert(u.len() > 0);
            assert(forall|j: int| 0 <= j < u.len() ==> !is_space_char(u[j])) by {
                assert(forall|j: int|
                    0 <= j < u.len() ==> !is_space_char(split_ws_units(part@)[i as int][j]));
            }
        }
        if cur.len() == 0 {
            let mut c: Vec<char> = Vec::new();
            crate::textutil::extend_chars(&mut c, w);
            proof {
                assert(c@ =~= u);
                assert(pack_rec(rest, seq![' '], max as nat, Seq::<char>::empty()) == pack_rec(
                    rest.skip(1),
                    seq![' '],
                    max as nat,
                    u,
                ));
            }
            cur = c;
        } else if would_exceed(cur.len(), 1, w.len(), max) {
            let ghost flushed = cur@;
            let ghost pre_deep = out.deep_view();
            out.push(cur);
            let mut c: Vec<char> = Vec::new();
            crate::textutil::extend_chars(&mut c, w);
            proof {
                assert(c@ =~= u);
                assert(out.deep_view() =~~= pre_deep.push(flushed));
                assert(pre_deep.push(flushed) =~= pre_deep + seq![flushed]);
                assert(pack_rec(rest, seq![' '], max as nat, flushed) == seq![flushed] + pack_rec(
                    rest.skip(1),
                    seq![' '],
                    max as nat,
                    u,
                ));
                assert((pre_deep + seq![flushed]) + pack_rec(rest.skip(1), seq![' '], max as nat, u)
                    =~= pre_deep + (seq![flushed] + pack_rec(rest.skip(1), seq![' '], max as nat, u)));
            }
            cur = c;
        } else {
            let ghost old_cur = cur@;
            cur.push(' ');
            crate::textutil::extend_chars(&mut cur, w);
            proof {
                assert(cur@ =~= old_cur + seq![' '] + u);
                assert(pack_rec(rest, seq![' '], max as nat, old_cur) == pack_rec(
                    rest.skip(1),
                    seq![' '],
                    max as nat,
                    old_cur + seq![' '] + u,
                ));
                assert(chunk_ok(cur@, max as nat)) by {
                    assert(cur@[0] == old_cur[0]);
                    assert(cur@[cur@.len() - 1] == u[u.len() - 1]);
                }
            }
        }
        i += 1;
    }
    if cur.len() > 0 {
        let ghost flushed = cur@;
        let ghost pre_deep = out.deep_view();
        out.push(cur);
        proof {
            assert(out.deep_view() =~~= pre_deep.push(flushed));
            assert(pre_deep.push(flushed) =~= pre_deep + seq![flushed]);
            assert(all.skip(words@.len() as int).len() == 0);
        }
    } else {
        proof {
            assert(all.skip(words@.len() as int).len() == 0);
            assert(out.deep_view() + Seq::<Seq<char>>::empty() =~= out.deep_view());
        }
    }
    out
}

/// Packs the comma parts of an oversized sentence, separator ", ".
fn chunk_commas_exec(parts: &Vec<Vec<char>>, max: usize) -> (r: Vec<Vec<char>>)
    requires
        units_ok(parts.deep_view()),
    ensures
        r.deep_view() == chunk_commas(parts.deep_view(), max as nat, Seq::empty()),
        chunks_ok(r.deep_view(), max as nat),
{
    let ghost all = parts.deep_view();
    let mut out: Vec<Vec<char>> = Vec::new();
    let mut cur: Vec<char> = Vec::new();
    let mut i: usize = 0;
    proof {
        assert(all.skip(0) =~= all);
        assert(out.deep_view() =~= Seq::<Seq<char>>::empty());
        assert(Seq::<Seq<char>>::empty() + chunk_commas(all, max as nat, cur@) =~= chunk_commas(
            all,
            max as nat,
            cur@,
        ));
    }
    while i < parts.len()
        invariant
            i <= parts.len(),
            all == parts.deep_view(),
            units_ok(all),
            chunk_commas(all, max as nat, Seq::empty()) == out.deep_view() + chunk_commas(
                all.skip(i as int),
                max as nat,
                cur@,
            ),
            chunks_ok(out.deep_view(), max as nat),
            cur@.len() > 0 ==> chunk_ok(cur@, max as nat) && cur@.len() <= max,
        decreases parts.len() - i,
    {
        let ghost rest = all.skip(i as int);
        proof {
            assert(rest[0] == all[i as int]);
            assert(rest.skip(1) =~= all.skip(i + 1int));
            assert(parts.deep_view()[i as int] =~= parts@[i as int]@);
        }
        let u = &parts[i];
        let ghost uview = all[i as int];
        assert(unit_ok(uview));
        let ghost old_cur = cur@;
        let ghost old_deep = out.deep_view();
        if u.len() > max {
            if cur.len() > 0 {
                let ghost flushed = cur@;
                let ghost pre_deep = out.deep_view();
                out.push(cur);
                cur = Vec::new();
                proof {
                    assert(out.deep_view() =~~= pre_deep.push(flushed));
                    assert(pre_deep.push(flushed) =~= pre_deep + seq![flushed]);
                }
            }
            let sub = chunk_words_exec(u, max);
            let ghost pre_deep = out.deep_view();
            append_chunks(&mut out, &sub);
            proof {
                assert(out.deep_view() =~= pre_deep + chunk_words(uview, max as nat));
                assert(chunk_commas(rest, max as nat, old_cur) == emit(old_cur) + chunk_words(
                    uview,
                    max as nat,
                ) + chunk_commas(rest.skip(1), max as nat, Seq::empty()));
                assert(old_deep + (emit(old_cur) + chunk_words(uview, max as nat) + chunk_commas(
                    rest.skip(1),
                    max as nat,
                    Seq::empty(),
                )) =~= (old_deep + emit(old_cur) + chunk_words(uview, max as nat)) + chunk_commas(
                    rest.skip(1),
                    max as nat,
                    Seq::empty(),
                ));
                assert(out.deep_view() =~= old_deep + emit(old_cur) + chunk_words(
                    uview,
                    max as nat,
                ));
            }
        } else if cur.len() == 0 {
            let mut c: Vec<char> = Vec::new();
            crate::textutil::extend_chars(&mut c, u);
            proof {
                assert(c@ =~= uview);
                assert(chunk_commas(rest, max as nat, Seq::<char>::empty()) == chunk_commas(
                    rest.skip(1),
                    max as nat,
                    uview,
                ));
            }
            cur = c;
        } else if would_exceed(cur.len(), 2, u.len(), max) {
            let ghost flushed = cur@;
            let ghost pre_deep = out.deep_view();
            out.push(cur);
            let mut c: Vec<char> = Vec::new();
            crate::textutil::extend_chars(&mut c, u);
            proof {
                assert(c@ =~= uview);
                assert(out.deep_view() =~~= pre_deep.push(flushed));
                assert(pre_deep.push(flushed) =~= pre_deep + seq![flushed]);
                assert(chunk_commas(rest, max as nat, flushed) == seq![flushed] + chunk_commas(
                    rest.skip(1),
                    max as nat,
                    uview,
                ));
                assert((pre_deep + seq![flushed]) + chunk_commas(rest.skip(1), max as nat, uview)
                    =~= pre_deep + (seq![flushed] + chunk_commas(rest.skip(1), max as nat, uview)));
            }
            cur = c;
        } else {
            cur.push(',');
            cur.push(' ');
            crate::textutil::extend_chars(&mut cur, u);
            proof {
                assert(cur@ =~= old_cur + seq![',', ' '] + uview);
                assert(chunk_commas(rest, max as nat, old_cur) == chunk_commas(
                    rest.skip(1),
                    max as nat,
                    old_cur + seq![',', ' '] + uview,
                ));
                assert(chunk_ok(cur@, max as nat)) by {
                    assert(cur@[0] == old_cur[0]);
                    assert(cur@[cur@.len() - 1] == uview[uview.len() - 1]);
                }
            }
        }
        i += 1;
    }
    if cur.len() > 0 {
        let ghost flushed = cur@;
        let ghost pre_deep = out.deep_view();
        out.push(cur);
        proof {
            assert(out.deep_view() =~~= pre_deep.push(flushed));
            assert(pre_deep.push(flushed) =~= pre_deep + seq![flushed]);
            assert(all.skip(parts@.len() as int).len() == 0);
        }
    } else {
        proof {
            assert(all.skip(parts@.len() as int).len() == 0);
            assert(out.deep_view() + Seq::<Seq<char>>::empty() =~= out.deep_view());
        }
    }
    out
}

/// Packs sentences into chunks, separator " "; an oversized sentence is
/// split on commas.
fn chunk_sentences_exec(sents: &Vec<Vec<char>>, max: usize) -> (r: Vec<Vec<char>>)
    requires
        units_ok(sents.deep_view()),
    ensures
        r.deep_view() == chunk_sentences(sents.deep_view(), max as nat, Seq::empty()),
        chunks_ok(r.deep_view(), max as nat),
{
    let ghost all = sents.deep_view();
    let mut out: Vec<Vec<char>> = Vec::new();
    let mut cur: Vec<char> = Vec::new();
    let mut i: usize = 0;
    proof {
        assert(all.skip(0) =~= all);
        assert(out.deep_view() =~= Seq::<Seq<char>>::empty());
        assert(Seq::<Seq<char>>::empty() + chunk_sentences(all, max as nat, cur@)
            =~= chunk_sentences(all, max as nat, cur@));
    }
    while i < sents.len()
        invariant
            i <= sents.len(),
            all == sents.deep_view(),
            units_ok(all),
            chunk_sentences(all, max as nat, Seq::empty()) == out.deep_view() + chunk_sentences(
                all.skip(i as int),
                max as nat,
                cur@,
            ),
            chunks_ok(out.deep_view(), max as nat),
            cur@.len() > 0 ==> chunk_ok(cur@, max as nat) && cur@.len() <= max,
        decreases sents.len() - i,
    {
        let ghost rest = all.skip(i as int);
        proof {
            assert(rest[0] == all[i as int]);
            assert(rest.skip(1) =~= all.skip(i + 1int));
            assert(sents.deep_view()[i as int] =~= sents@[i as int]@);
        }
        let u = &sents[i];
        let ghost uview = all[i as int];
        assert(unit_ok(uview));
        let ghost old_cur = cur@;
        let ghost old_deep = out.deep_view();
        if u.len() > max {
            if cur.len() > 0 {
                let ghost flushed = cur@;
                let ghost pre_deep = out.deep_view();
                out.push(cur);
                cur = Vec::new();
                proof {
                    assert(out.deep_view() =~~= pre_deep.push(flushed));
                    assert(pre_deep.push(flushed) =~= pre_deep + seq![flushed]);
                }
            }
            let raw_parts = split_on_exec(u, ',');
            let parts = trim_filter_exec(&raw_parts);
            proof {
                lemma_trim_filter_props(raw_parts.deep_view());
                assert(parts.deep_view() == comma_units(uview));
            }
            let sub = chunk_commas_exec(&parts, max);
            let ghost pre_deep = out.deep_view();
            append_chunks(&mut out, &sub);
            proof {
                assert(out.deep_view() =~= pre_deep + chunk_commas(
                    comma_units(uview),
                    max as nat,
                    Seq::empty(),
                ));
                assert(chunk_sentences(rest, max as nat, old_cur) == emit(old_cur) + chunk_commas(
                    comma_units(uview),
                    max as nat,
                    Seq::empty(),
                ) + chunk_sentences(rest.skip(1), max as nat, Seq::empty()));
                assert(old_deep + (emit(old_cur) + chunk_commas(
                    comma_units(uview),
                    max as nat,
                    Seq::empty(),
                ) + chunk_sentences(rest.skip(1), max as nat, Seq::empty())) =~= (old_deep + emit(
                    old_cur,
                ) + chunk_commas(comma_units(uview), max as nat, Seq::empty()))
                    + chunk_sentences(rest.skip(1), max as nat, Seq::empty()));
                assert(out.deep_view() =~= old_deep + emit(old_cur) + chunk_commas(
                    comma_units(uview),
                    max as nat,
                    Seq::empty(),
                ));
            }
        } else if cur.len() == 0 {
            let mut c: Vec<char> = Vec::new();
            crate::textutil::extend_chars(&mut c, u);
            proof {
                assert(c@ =~= uview);
                assert(chunk_sentences(rest, max as nat, Seq::<char>::empty()) == chunk_sentences(
                    rest.skip(1),
                    max as nat,
                    uview,
                ));
            }
            cur = c;
        } else if would_exceed(cur.len(), 1, u.len(), max) {
            let ghost flushed = cur@;
            let ghost pre_deep = out.deep_view();
            out.push(cur);
            let mut c: Vec<char> = Vec::new();
            crate::textutil::extend_chars(&mut c, u);
            proof {
                assert(c@ =~= uview);
                assert(out.deep_view() =~~= pre_deep.push(flushed));
                assert(pre_deep.push(flushed) =~= pre_deep + seq![flushed]);
                assert(chunk_sentences(rest, max as nat, flushed) == seq![flushed]
                    + chunk_sentences(rest.skip(1), max as nat, uview));
                assert((pre_deep + seq![flushed]) + chunk_sentences(
                    rest.skip(1),
                    max as nat,
                    uview,
                ) =~= pre_deep + (seq![flushed] + chunk_sentences(
                    rest.skip(1),
                    max as nat,
                    uview,
                )));
            }
            cur = c;
        } else {
            cur.push(' ');
            crate::textutil::extend_chars(&mut cur, u);
            proof {
                assert(cur@ =~= old_cur + seq![' '] + uview);
                assert(chunk_sentences(rest, max as nat, old_cur) == chunk_sentences(
                    rest.skip(1),
                    max as nat,
                    old_cur + seq![' '] + uview,
                ));
                assert(chunk_ok(cur@, max as nat)) by {
                    assert(cur@[0] == old_cur[0]);
                    assert(cur@[cur@.len() - 1] == uview[uview.len() - 1]);
                }
            }
        }
        i += 1;
    }
    if cur.len() > 0 {
        let ghost flushed = cur@;
        let ghost pre_deep = out.deep_view();
        out.push(cur);
        proof {
            assert(out.deep_view() =~~= pre_deep.push(flushed));
            assert(pre_deep.push(flushed) =~= pre_deep + seq![flushed]);
            assert(all.skip(sents@.len() as int).len() == 0);
        }
    } else {
        proof {
            assert(all.skip(sents@.len() as int).len() == 0);
            assert(out.deep_view() + Seq::<Seq<char>>::empty() =~= out.deep_view());
        }
    }
    out
}


// ---------------------------------------------------------------------------
// Paragraph boundaries
// ---------------------------------------------------------------------------

/// The index of the last newline in `[k, e)`, or `-1` if there is none.
pub open spec fn last_nl(s: Seq<char>, k: int, e: int) -> int
    recommends
        0 <= k,
        e <= s.len(),
    decreases e - k,
    when k <= e
{
    if k >= e {
        -1
    } else {
        let rest = last_nl(s, k + 1, e);
        if rest >= 0 {
            rest
        } else if s[k] == '\n' {
            k
        } else {
            -1
        }
    }
}

proof fn lemma_last_nl_bounds(s: Seq<char>, k: int, e: int)
    requires
        0 <= k <= e <= s.len(),
    ensures
        last_nl(s, k, e) == -1 || k <= last_nl(s, k, e) < e,
    decreases e - k,
{
    if k < e {
        lemma_last_nl_bounds(s, k + 1, e);
    }
}

proof fn lemma_last_nl_is(s: Seq<char>, k: int, e: int, v: int)
    requires
        0 <= k <= v < e <= s.len(),
        s[v] == '\n',
        forall|q: int| v < q < e ==> s[q] != '\n',
    ensures
        last_nl(s, k, e) == v,
    decreases e - k,
{
    if k < v {
        lemma_last_nl_is(s, k + 1, e, v);
    } else {
        lemma_last_nl_none(s, k + 1, e);
    }
}

proof fn lemma_last_nl_none(s: Seq<char>, k: int, e: int)
    requires
        0 <= k <= e <= s.len(),
        forall|q: int| k <= q < e ==> s[q] != '\n',
    ensures
        last_nl(s, k, e) == -1,
    decreases e - k,
{
    if k < e {
        lemma_last_nl_none(s, k + 1, e);
    }
}

/// The chunks one paragraph slice contributes: none when it trims to
/// nothing, else the chunks of the trimmed paragraph.
pub open spec fn para_chunks_of(piece: Seq<char>, max: nat) -> Seq<Seq<char>> {
    if trim_ws(piece).len() == 0 {
        Seq::empty()
    } else {
        chunk_paragraph_spec(trim_ws(piece), max)
    }
}

/// The scan over the trimmed text for blank-line paragraph boundaries: a
/// newline whose whitespace run holds another newline separates paragraphs
/// (the separator runs from the first newline through the last one); each
/// piece between separators is chunked on its own, and the remainder after
/// the last separator is the final paragraph.
pub open spec fn para_scan(s: Seq<char>, start: int, i: int, max: nat) -> Seq<Seq<char>>
    recommends
        0 <= start <= i <= s.len(),
    decreases s.len() - i,
    when 0 <= start <= i <= s.len()
    via para_scan_decreases
{
    if i >= s.len() {
        para_chunks_of(s.subrange(start, s.len() as int), max)
    } else if s[i] == '\n' {
        let e = crate::segment::ws_run_end(s, i);
        let ln = last_nl(s, i, e);
        if ln > i {
            para_chunks_of(s.subrange(start, i), max) + para_scan(s, ln + 1, ln + 1, max)
        } else {
            para_scan(s, start, e, max)
        }
    } else {
        para_scan(s, start, i + 1, max)
    }
}

#[via_fn]
proof fn para_scan_decreases(s: Seq<char>, start: int, i: int, max: nat) {
    if i < s.len() && s[i] == '\n' {
        assert(is_space_char(s[i]));
        assert(crate::segment::ws_run_end(s, i) == crate::segment::ws_run_end(s, i + 1));
        crate::segment::lemma_ws_run_end_bounds(s, i + 1);
        let e = crate::segment::ws_run_end(s, i);
        lemma_last_nl_bounds(s, i, e);
    }
}

/// The chunks of a whole text: the paragraph scan of the trimmed text, or
/// one empty chunk when nothing remains.
pub open spec fn chunk_text_spec(text: Seq<char>, max: nat) -> Seq<Seq<char>> {
    let p = trim_ws(text);
    let scanned = para_scan(p, 0, 0, max);
    if scanned.len() == 0 {
        seq![Seq::<char>::empty()]
    } else {
        scanned
    }
}

// ---------------------------------------------------------------------------
// One paragraph
// ---------------------------------------------------------------------------

/// The chunks of one trimmed paragraph: the paragraph whole when it fits
/// the bound, else its trimmed non-empty sentences packed greedily (with
/// comma and word fallbacks inside `chunk_sentences`).
pub open spec fn chunk_paragraph_spec(p: Seq<char>, max: nat) -> Seq<Seq<char>> {
    if p.len() <= max {
        seq![p]
    } else {
        chunk_sentences(trim_filter(split_sentences_spec(p)), max, Seq::empty())
    }
}

/// Chunks one paragraph: trimmed and emitted whole when it fits the bound,
/// otherwise split into sentences and packed greedily.
fn process_one_paragraph(piece: &Vec<char>, max: usize) -> (r: Vec<Vec<char>>)
    ensures
        chunks_ok(r.deep_view(), max as nat),
        trim_ws(piece@).len() == 0 ==> r@.len() == 0,
        trim_ws(piece@).len() > 0 ==> r.deep_view() == chunk_paragraph_spec(
            trim_ws(piece@),
            max as nat,
        ),
{
    let t = crate::textnorm::trim_ws_exec(piece);
    if t.len() == 0 {
        let out: Vec<Vec<char>> = Vec::new();
        assert(out.deep_view().len() == 0);
        return out;
    }
    proof {
        lemma_trim_ws_props(piece@);
    }
    if t.len() <= max {
        let ghost tview = t@;
        let mut out: Vec<Vec<char>> = Vec::new();
        out.push(t);
        proof {
            assert(out.deep_view() =~~= seq![tview]);
            assert(chunk_ok(tview, max as nat));
        }
        return out;
    }
    let ts = chars_to_string(&t);
    let sents = split_sentences(ts.as_str());
    let mut sv: Vec<Vec<char>> = Vec::new();
    let mut i: usize = 0;
    while i < sents.len()
        invariant
            i <= sents.len(),
            sv.deep_view() == sents.deep_view().take(i as int),
        decreases sents.len() - i,
    {
        let sc = str_to_chars(sents[i].as_str());
        let ghost pre_deep = sv.deep_view();
        sv.push(sc);
        proof {
            assert(sents.deep_view()[i as int] == sents@[i as int]@);
            assert(sv.deep_view() =~~= pre_deep.push(sents.deep_view()[i as int]));
            assert(sents.deep_view().take(i + 1int) =~= sents.deep_view().take(i as int).push(
                sents.deep_view()[i as int],
            ));
        }
        i += 1;
    }
    proof {
        assert(sents.deep_view().take(sents@.len() as int) =~= sents.deep_view());
        assert(sv.deep_view() == split_sentences_spec(t@));
    }
    let units = trim_filter_exec(&sv);
    proof {
        lemma_trim_filter_props(sv.deep_view());
    }
    let r = chunk_sentences_exec(&units, max);
    proof {
        assert(r.deep_view() == chunk_paragraph_spec(trim_ws(piece@), max as nat));
    }
    r
}

// ---------------------------------------------------------------------------
// The chunker
// ---------------------------------------------------------------------------

/// The chunk bound in use: the given one, or the default.
pub open spec fn spec_chunk_bound(max_len: Option<usize>) -> nat {
    match max_len {
        Some(m) => m as nat,
        None => 300,
    }
}

/// Splits `text` into ordered bounded-length chunks.  Paragraphs (blank-line
/// separated) that fit the bound become chunks whole; oversized paragraphs
/// are packed sentence by sentence, an oversized sentence is split on
/// commas, and an oversized comma part is packed word by word.  Empty (or
/// all-whitespace) input yields exactly one empty chunk; otherwise every
/// chunk is non-empty, trimmed, and no longer than the bound unless it is a
/// single indivisible word.
pub fn chunk_text(text: &str, max_len: Option<usize>) -> (r: Vec<String>)
    ensures
        r.deep_view() == chunk_text_spec(text@, spec_chunk_bound(max_len)),
        r@.len() >= 1,
        trim_ws(text@).len() == 0 ==> r.deep_view() == seq![Seq::<char>::empty()],
        r.deep_view() == seq![Seq::<char>::empty()] || chunks_ok(
            r.deep_view(),
            spec_chunk_bound(max_len),
        ),
{
    let max = match max_len {
        Some(m) => m,
        None => MAX_CHUNK_LENGTH,
    };
    let v = str_to_chars(text);
    let p = crate::textnorm::trim_ws_exec(&v);
    let ghost pv = p@;
    if p.len() == 0 {
        proof {
            assert(pv.subrange(0, 0) =~= Seq::<char>::empty());
            assert(trim_ws(Seq::<char>::empty()).len() == 0);
            assert(para_scan(pv, 0, 0, max as nat).len() == 0);
        }
        let mut out: Vec<String> = Vec::new();
        out.push(String::new());
        proof {
            assert(out.deep_view() =~= seq![Seq::<char>::empty()]);
        }
        return out;
    }
    let n = p.len();
    let mut acc: Vec<Vec<char>> = Vec::new();
    let mut start: usize = 0;
    let mut i: usize = 0;
    while i < n
        invariant
            start <= i <= n,
            n == pv.len(),
            pv == p@,
            chunks_ok(acc.deep_view(), max as nat),
            para_scan(pv, 0, 0, max as nat) == acc.deep_view() + para_scan(
                pv,
                start as int,
                i as int,
                max as nat,
            ),
        decreases n - i,
    {
        if p[i] == '\n' {
            // walk the whitespace run, remembering the last newline
            let mut j: usize = i + 1;
            let mut nl: usize = i;
            while j < n && is_space_char_exec(p[j])
                invariant
                    i < j <= n,
                    i <= nl < j,
                    n == pv.len(),
                    pv == p@,
                    pv[i as int] == '\n',
                    pv[nl as int] == '\n',
                    forall|q: int| i <= q < j ==> is_space_char(#[trigger] pv[q]),
                    forall|q: int| nl < q < j ==> pv[q] != '\n',
                decreases n - j,
            {
                if p[j] == '\n' {
                    nl = j;
                }
                j += 1;
            }
            proof {
                crate::segment::lemma_ws_run_end_is(pv, i as int, j as int);
                lemma_last_nl_is(pv, i as int, j as int, nl as int);
            }
            if nl > i {
                // a blank-line separator from i through nl
                proof {
                    assert(para_scan(pv, start as int, i as int, max as nat) == para_chunks_of(
                        pv.subrange(start as int, i as int),
                        max as nat,
                    ) + para_scan(pv, nl + 1int, nl + 1int, max as nat));
                }
                let piece = sub_chars(&p, start, i);
                let sub = process_one_paragraph(&piece, max);
                let ghost pre_deep = acc.deep_view();
                append_chunks(&mut acc, &sub);
                proof {
                    if trim_ws(piece@).len() == 0 {
                        assert(sub.deep_view().len() == 0);
                        assert(sub.deep_view() =~= para_chunks_of(piece@, max as nat));
                    }
                    assert(sub.deep_view() == para_chunks_of(piece@, max as nat));
                    assert((pre_deep + sub.deep_view()) + para_scan(
                        pv,
                        nl + 1int,
                        nl + 1int,
                        max as nat,
                    ) =~= pre_deep + (sub.deep_view() + para_scan(
                        pv,
                        nl + 1int,
                        nl + 1int,
                        max as nat,
                    )));
                    assert forall|k: int|
                        0 <= k < acc.deep_view().len() implies chunk_ok(
                        #[trigger] acc.deep_view()[k],
                        max as nat,
                    ) by {
                        if k < pre_deep.len() {
                            assert(acc.deep_view()[k] == pre_deep[k]);
                        } else {
                            assert(acc.deep_view()[k] == sub.deep_view()[k - pre_deep.len()]);
                        }
                    }
                }
                start = nl + 1;
                i = nl + 1;
            } else {
                // a lone newline: no boundary inside this run
                proof {
                    assert(para_scan(pv, start as int, i as int, max as nat) == para_scan(
                        pv,
                        start as int,
                        j as int,
                        max as nat,
                    ));
                }
                i = j;
            }
        } else {
            proof {
                assert(para_scan(pv, start as int, i as int, max as nat) == para_scan(
                    pv,
                    start as int,
                    i + 1int,
                    max as nat,
                ));
            }
            i += 1;
        }
    }
    // the remainder after the last separator is the final paragraph
    proof {
        assert(para_scan(pv, start as int, n as int, max as nat) == para_chunks_of(
            pv.subrange(start as int, n as int),
            max as nat,
        ));
    }
    let piece = sub_chars(&p, start, n);
    let sub = process_one_paragraph(&piece, max);
    let ghost pre_deep = acc.deep_view();
    append_chunks(&mut acc, &sub);
    proof {
        if trim_ws(piece@).len() == 0 {
            assert(sub.deep_view().len() == 0);
            assert(sub.deep_view() =~= para_chunks_of(piece@, max as nat));
        }
        assert(sub.deep_view() == para_chunks_of(piece@, max as nat));
        assert(acc.deep_view() == para_scan(pv, 0, 0, max as nat));
        assert forall|k: int|
            0 <= k < acc.deep_view().len() implies chunk_ok(
            #[trigger] acc.deep_view()[k],
            max as nat,
        ) by {
            if k < pre_deep.len() {
                assert(acc.deep_view()[k] == pre_deep[k]);
            } else {
                assert(acc.deep_view()[k] == sub.deep_view()[k - pre_deep.len()]);
            }
        }
    }
    let chunks = acc;
    if chunks.len() == 0 {
        // every paragraph dissolved (for example nothing but separators
        // around empty comma parts): fall back to one empty chunk
        let mut out: Vec<String> = Vec::new();
        out.push(String::new());
        proof {
            assert(out.deep_view() =~= seq![Seq::<char>::empty()]);
        }
        return out;
    }
    let mut out: Vec<String> = Vec::new();
    let mut i: usize = 0;
    while i < chunks.len()
        invariant
            i <= chunks.len(),
            out.deep_view() == chunks.deep_view().take(i as int),
        decreases chunks.len() - i,
    {
        let cs = chars_to_string(&chunks[i]);
        let ghost pre_deep = out.deep_view();
        out.push(cs);
        proof {
            assert(chunks.deep_view()[i as int] =~= chunks@[i as int]@);
            assert(out.deep_view() =~~= pre_deep.push(chunks.deep_view()[i as int]));
            assert(chunks.deep_view().take(i + 1int) =~= chunks.deep_view().take(i as int).push(
                chunks.deep_view()[i as int],
            ));
        }
        i += 1;
    }
    proof {
        assert(chunks.deep_view().take(chunks@.len() as int) =~= chunks.deep_view());
    }
    out
}

// ---------------------------------------------------------------------------
// Chunking reconstructs its input
// ---------------------------------------------------------------------------

/// The pieces joined with `sep` between consecutive pieces.
pub open spec fn join_with(parts: Seq<Seq<char>>, sep: Seq<char>) -> Seq<char>
    decreases parts.len(),
{
    if parts.len() == 0 {
        Seq::empty()
    } else if parts.len() == 1 {
        parts[0]
    } else {
        parts[0] + sep + join_with(parts.skip(1), sep)
    }
}

proof fn lemma_pack_rec_nonempty(units: Seq<Seq<char>>, sep: Seq<char>, max: nat, cur: Seq<char>)
    requires
        cur.len() > 0,
    ensures
        pack_rec(units, sep, max, cur).len() >= 1,
    decreases units.len(),
{
    if units.len() == 0 {
    } else {
        let u = units[0];
        let rest = units.skip(1);
        if cur.len() + sep.len() + u.len() > max {
            if u.len() > 0 {
                lemma_pack_rec_nonempty(rest, sep, max, u);
            }
        } else {
            lemma_pack_rec_nonempty(rest, sep, max, cur + sep + u);
        }
    }
}

proof fn lemma_join_cons(head: Seq<char>, parts: Seq<Seq<char>>, sep: Seq<char>)
    requires
        parts.len() >= 1,
    ensures
        join_with(seq![head] + parts, sep) == head + sep + join_with(parts, sep),
{
    let whole = seq![head] + parts;
    assert(whole.len() >= 2);
    assert(whole[0] == head);
    assert(whole.skip(1) =~= parts);
}

/// Greedy packing loses nothing: joining the packed chunks with the
/// separator restores the joined units, for any unit list, any separator
/// and any bound.  The pending buffer, when non-empty, stands in front as
/// one more unit.
pub proof fn lemma_pack_rec_reconstructs(
    units: Seq<Seq<char>>,
    sep: Seq<char>,
    max: nat,
    cur: Seq<char>,
)
    requires
        forall|k: int| 0 <= k < units.len() ==> (#[trigger] units[k]).len() > 0,
    ensures
        cur.len() == 0 ==> join_with(pack_rec(units, sep, max, cur), sep) == join_with(units, sep),
        cur.len() > 0 ==> join_with(pack_rec(units, sep, max, cur), sep) == join_with(
            seq![cur] + units,
            sep,
        ),
    decreases units.len(),
{
    if units.len() == 0 {
        if cur.len() > 0 {
            assert(pack_rec(units, sep, max, cur) == seq![cur]);
            assert(join_with(seq![cur], sep) == cur);
            assert(seq![cur] + units =~= seq![cur]);
        }
    } else {
        let u = units[0];
        let rest = units.skip(1);
        assert(u.len() > 0);
        assert(forall|k: int| 0 <= k < rest.len() ==> rest[k] == units[k + 1]);
        if cur.len() == 0 {
            lemma_pack_rec_reconstructs(rest, sep, max, u);
            assert(seq![u] + rest =~= units);
        } else if cur.len() + sep.len() + u.len() > max {
            lemma_pack_rec_reconstructs(rest, sep, max, u);
            lemma_pack_rec_nonempty(rest, sep, max, u);
            let packed = pack_rec(rest, sep, max, u);
            assert(pack_rec(units, sep, max, cur) == seq![cur] + packed);
            lemma_join_cons(cur, packed, sep);
            assert(seq![u] + rest =~= units);
            // both sides are cur, the separator, then the joined units
            lemma_join_cons(cur, units, sep);
        } else {
            lemma_pack_rec_reconstructs(rest, sep, max, cur + sep + u);
            if rest.len() == 0 {
                assert(pack_rec(units, sep, max, cur) == seq![cur + sep + u]);
                assert(join_with(seq![cur + sep + u], sep) == cur + sep + u);
                assert(seq![cur] + units =~= seq![cur, u]);
                assert(join_with(seq![cur, u], sep) == cur + sep + join_with(
                    seq![cur, u].skip(1),
                    sep,
                ));
                assert(seq![cur, u].skip(1) =~= seq![u]);
                assert(join_with(seq![u], sep) == u);
            } else {
                // join(seq![cur + sep + u] + rest) == (cur + sep + u) + sep + join(rest)
                lemma_join_cons(cur + sep + u, rest, sep);
                lemma_join_cons(cur, units, sep);
                lemma_join_cons(u, rest, sep);
                assert(seq![u] + rest =~= units);
                assert((cur + sep + u) + sep + join_with(rest, sep) =~= cur + sep + (u + sep
                    + join_with(rest, sep)));
            }
        }
    }
}

proof fn lemma_chunk_sentences_is_pack(sents: Seq<Seq<char>>, max: nat, cur: Seq<char>)
    requires
        forall|k: int| 0 <= k < sents.len() ==> (#[trigger] sents[k]).len() <= max,
    ensures
        chunk_sentences(sents, max, cur) == pack_rec(sents, seq![' '], max, cur),
    decreases sents.len(),
{
    if sents.len() == 0 {
    } else {
        let rest = sents.skip(1);
        assert(forall|k: int| 0 <= k < rest.len() ==> rest[k] == sents[k + 1]);
        let u = sents[0];
        assert(u.len() <= max);
        if cur.len() == 0 {
            lemma_chunk_sentences_is_pack(rest, max, u);
        } else if cur.len() + 1 + u.len() > max {
            lemma_chunk_sentences_is_pack(rest, max, u);
            assert(seq![' '].len() == 1);
        } else {
            lemma_chunk_sentences_is_pack(rest, max, cur + seq![' '] + u);
            assert(seq![' '].len() == 1);
        }
    }
}

/// Chunking reconstructs its input at the sentence level: when every
/// sentence fits the bound, joining the chunks with single spaces equals
/// joining the sentences with single spaces — the greedy packing only
/// regroups, it never loses or reorders text.
pub proof fn lemma_chunking_reconstructs(sents: Seq<Seq<char>>, max: nat)
    requires
        forall|k: int| 0 <= k < sents.len() ==> 0 < (#[trigger] sents[k]).len() <= max,
    ensures
        join_with(chunk_sentences(sents, max, Seq::empty()), seq![' ']) == join_with(
            sents,
            seq![' '],
        ),
{
    lemma_chunk_sentences_is_pack(sents, max, Seq::empty());
    lemma_pack_rec_reconstructs(sents, seq![' '], max, Seq::empty());
}


/// Trimming a text whose ends are not whitespace changes nothing.
proof fn lemma_trim_ws_identity(s: Seq<char>)
    requires
        s.len() > 0 ==> !is_space_char(s[0]),
        s.len() > 0 ==> !is_space_char(s[s.len() - 1]),
    ensures
        trim_ws(s) == s,
{
    assert(crate::textnorm::trim_ws_left(s) == s);
    assert(crate::textnorm::trim_ws_right(s) == s);
}

/// Whether position `i` opens a blank-line paragraph separator.
pub open spec fn opens_para_sep(s: Seq<char>, i: int) -> bool {
    s[i] == '\n' && last_nl(s, i, crate::segment::ws_run_end(s, i)) > i
}

proof fn lemma_para_scan_single(s: Seq<char>, start: int, i: int, max: nat)
    requires
        0 <= start <= i <= s.len(),
        forall|q: int| i <= q < s.len() ==> !opens_para_sep(s, q),
    ensures
        para_scan(s, start, i, max) == para_chunks_of(s.subrange(start, s.len() as int), max),
    decreases s.len() - i,
{
    if i >= s.len() {
    } else if s[i] == '\n' {
        assert(!opens_para_sep(s, i));
        assert(is_space_char(s[i]));
        assert(crate::segment::ws_run_end(s, i) == crate::segment::ws_run_end(s, i + 1));
        crate::segment::lemma_ws_run_end_bounds(s, i + 1);
        lemma_para_scan_single(s, start, crate::segment::ws_run_end(s, i), max);
    } else {
        lemma_para_scan_single(s, start, i + 1, max);
    }
}

proof fn lemma_pack_rec_from_empty_nonempty(units: Seq<Seq<char>>, sep: Seq<char>, max: nat)
    requires
        units.len() >= 1,
        units[0].len() > 0,
    ensures
        pack_rec(units, sep, max, Seq::empty()).len() >= 1,
{
    lemma_pack_rec_nonempty(units.skip(1), sep, max, units[0]);
}

/// Chunking a whole single-paragraph text reconstructs its sentence
/// stream: when the trimmed text exceeds the bound, holds no blank-line
/// separator, and every trimmed sentence fits the bound, joining the
/// chunks with single spaces equals joining the trimmed sentences with
/// single spaces.
pub proof fn lemma_chunk_text_reconstructs(text: Seq<char>, max: nat)
    requires
        trim_ws(text).len() > max,
        forall|q: int| 0 <= q < trim_ws(text).len() ==> !opens_para_sep(trim_ws(text), q),
        trim_filter(split_sentences_spec(trim_ws(text))).len() >= 1,
        forall|k: int|
            0 <= k < trim_filter(split_sentences_spec(trim_ws(text))).len() ==> (
            #[trigger] trim_filter(split_sentences_spec(trim_ws(text)))[k]).len() <= max,
    ensures
        join_with(chunk_text_spec(text, max), seq![' ']) == join_with(
            trim_filter(split_sentences_spec(trim_ws(text))),
            seq![' '],
        ),
{
    let p = trim_ws(text);
    let units = trim_filter(split_sentences_spec(p));
    lemma_trim_ws_props(text);
    lemma_trim_ws_identity(p);
    lemma_para_scan_single(p, 0, 0, max);
    assert(p.subrange(0, p.len() as int) =~= p);
    assert(para_chunks_of(p, max) == chunk_paragraph_spec(p, max));
    lemma_trim_filter_props(split_sentences_spec(p));
    lemma_chunk_sentences_is_pack(units, max, Seq::empty());
    assert(units[0].len() > 0);
    lemma_pack_rec_from_empty_nonempty(units, seq![' '], max);
    assert(chunk_text_spec(text, max) == chunk_sentences(units, max, Seq::empty()));
    lemma_chunking_reconstructs(units, max);
}

} // verus!
