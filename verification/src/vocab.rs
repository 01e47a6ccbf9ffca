//! Vocabulary indexing: maps normalized chunk text to integer id sequences
//! plus an attention mask.  Code points beyond the table map to the unknown
//! sentinel `-1`, never to a failure; rows are right-padded with `0`, and
//! the mask marks the real (non-padding) positions with `1`.

use vstd::prelude::*;

use crate::errors::TtsError;
use crate::lang::is_supported_lang;
use crate::textnorm::{normalize_text_spec, preprocess_text};
use crate::textutil::str_to_chars;

verus! {

/// The id the lookup table gives to `c`: the table entry at the code point,
/// or the unknown sentinel `-1` past the table's range.
pub open spec fn token_of(indexer: Seq<i64>, c: char) -> i64 {
    if (c as u32) < indexer.len() {
        indexer[c as u32 as int]
    } else {
        -1i64
    }
}

/// The length of the longest text in a batch.
pub open spec fn batch_max_len(norms: Seq<Seq<char>>) -> int
    decreases norms.len(),
{
    if norms.len() == 0 {
        0
    } else {
        let rest = batch_max_len(norms.drop_last());
        if norms.last().len() > rest {
            norms.last().len() as int
        } else {
            rest
        }
    }
}

/// The normalized form of every text in a batch, each wrapped in its
/// language tag.
pub open spec fn normalized_batch(texts: Seq<Seq<char>>, langs: Seq<Seq<char>>) -> Seq<Seq<char>> {
    Seq::new(texts.len(), |i: int| normalize_text_spec(texts[i], langs[i]))
}

/// The unicode-to-index mapping table, loaded once at startup from a
/// persisted array indexed by code point value.
pub struct UnicodeProcessor {
    pub indexer: Vec<i64>,
}

impl UnicodeProcessor {
    /// Wraps an index table that the caller has already loaded.
    pub fn new(indexer: Vec<i64>) -> (r: Self)
        ensures
            r.indexer == indexer,
    {
        UnicodeProcessor { indexer }
    }

    /// Encodes a batch of texts: each is normalized for its language, its
    /// code points are mapped through the table (`-1` past the range), rows
    /// are right-padded with `0` to the batch maximum, and the mask holds
    /// `1` exactly at the real positions.  Fails with `InvalidLanguage` if
    /// and only if some language is unsupported.
    pub fn call(&self, text_list: &Vec<String>, lang_list: &Vec<String>) -> (r: Result<
        (Vec<Vec<i64>>, Vec<Vec<u8>>),
        TtsError,
    >)
        requires
            text_list@.len() == lang_list@.len(),
        ensures
            r is Ok <==> (forall|i: int|
                0 <= i < lang_list@.len() ==> is_supported_lang(#[trigger] lang_list@[i]@)),
            r matches Err(e) ==> e == TtsError::InvalidLanguage,
            r matches Ok(pair) ==> ({
                let norms = normalized_batch(text_list.deep_view(), lang_list.deep_view());
                let m = batch_max_len(norms);
                let ids = pair.0;
                let mask = pair.1;
                &&& ids.deep_view().len() == norms.len()
                &&& mask.deep_view().len() == norms.len()
                &&& forall|i: int|
                    0 <= i < norms.len() ==> (#[trigger] ids.deep_view()[i]).len() == m
                &&& forall|i: int|
                    0 <= i < norms.len() ==> (#[trigger] mask.deep_view()[i]).len() == m
                &&& forall|i: int, j: int|
                    0 <= i < norms.len() && 0 <= j < m ==> #[trigger] ids.deep_view()[i][j] == (
                    if j < norms[i].len() {
                        token_of(self.indexer@, norms[i][j])
                    } else {
                        0i64
                    })
                &&& forall|i: int, j: int|
                    0 <= i < norms.len() && 0 <= j < m ==> #[trigger] mask.deep_view()[i][j] == (
                    if j < norms[i].len() {
                        1u8
                    } else {
                        0u8
                    })
            }),
    {
        let n = text_list.len();
        let ghost norms = normalized_batch(text_list.deep_view(), lang_list.deep_view());
        // normalize every text; the whole batch fails on the first
        // unsupported language
        let mut processed: Vec<Vec<char>> = Vec::new();
        let mut i: usize = 0;
        while i < n
            invariant
                i <= n,
                n == text_list@.len(),
                n == lang_list@.len(),
                norms == normalized_batch(text_list.deep_view(), lang_list.deep_view()),
                processed@.len() == i,
                forall|k: int| 0 <= k < i ==> is_supported_lang(#[trigger] lang_list@[k]@),
                forall|k: int| 0 <= k < i ==> #[trigger] processed.deep_view()[k] == norms[k],
            decreases n - i,
        {
            match preprocess_text(text_list[i].as_str(), lang_list[i].as_str()) {
                Ok(t) => {
                    let tc = str_to_chars(t.as_str());
                    let ghost tv = tc@;
                    let ghost pre_deep = processed.deep_view();
                    processed.push(tc);
                    proof {
                        assert(processed.deep_view() =~~= pre_deep.push(tv));
                        assert(processed.deep_view()[i as int] =~= normalize_text_spec(
                            text_list@[i as int]@,
                            lang_list@[i as int]@,
                        ));
                        assert(text_list.deep_view()[i as int] == text_list@[i as int]@);
                        assert(lang_list.deep_view()[i as int] == lang_list@[i as int]@);
                        assert(norms[i as int] == normalize_text_spec(
                            text_list@[i as int]@,
                            lang_list@[i as int]@,
                        ));
                    }
                },
                Err(_) => {
                    return Err(TtsError::InvalidLanguage);
                },
            }
            i += 1;
        }
        // the batch maximum length
        let mut m: usize = 0;
        let mut i: usize = 0;
        proof {
            assert(norms.take(0) =~= Seq::<Seq<char>>::empty());
        }
        while i < n
            invariant
                i <= n,
                n == norms.len(),
                processed@.len() == n,
                forall|k: int| 0 <= k < n ==> #[trigger] processed.deep_view()[k] == norms[k],
                m == batch_max_len(norms.take(i as int)),
            decreases n - i,
        {
            let len_i = processed[i].len();
            proof {
                assert(norms.take(i + 1int).drop_last() =~= norms.take(i as int));
                assert(norms.take(i + 1int).last() == norms[i as int]);
                assert(processed.deep_view()[i as int] =~= processed@[i as int]@);
            }
            if len_i > m {
                m = len_i;
            }
            i += 1;
        }
        proof {
            assert(norms.take(n as int) =~= norms);
        }
        // build the padded id rows and the mask
        let mut ids: Vec<Vec<i64>> = Vec::new();
        let mut mask: Vec<Vec<u8>> = Vec::new();
        let mut i: usize = 0;
        while i < n
            invariant
                i <= n,
                n == norms.len(),
                processed@.len() == n,
                m == batch_max_len(norms),
                forall|k: int| 0 <= k < n ==> #[trigger] processed.deep_view()[k] == norms[k],
                ids.deep_view().len() == i,
                mask.deep_view().len() == i,
                forall|k: int| 0 <= k < i ==> (#[trigger] ids.deep_view()[k]).len() == m,
                forall|k: int| 0 <= k < i ==> (#[trigger] mask.deep_view()[k]).len() == m,
                forall|k: int, j: int|
                    0 <= k < i && 0 <= j < m ==> #[trigger] ids.deep_view()[k][j] == (if j
                        < norms[k].len() {
                        token_of(self.indexer@, norms[k][j])
                    } else {
                        0i64
                    }),
                forall|k: int, j: int|
                    0 <= k < i && 0 <= j < m ==> #[trigger] mask.deep_view()[k][j] == (if j
                        < norms[k].len() {
                        1u8
                    } else {
                        0u8
                    }),
            decreases n - i,
        {
            let row_src = &processed[i];
            proof {
                assert(processed.deep_view()[i as int] =~= processed@[i as int]@);
            }
            let mut row: Vec<i64> = Vec::new();
            let mut mrow: Vec<u8> = Vec::new();
            let mut j: usize = 0;
            while j < m
                invariant
                    j <= m,
                    row_src@ == norms[i as int],
                    0 <= i < n,
                    n == norms.len(),
                    row@.len() == j,
                    mrow@.len() == j,
                    forall|q: int|
                        0 <= q < j ==> row@[q] == (if q < norms[i as int].len() {
                            token_of(self.indexer@, norms[i as int][q])
                        } else {
                            0i64
                        }),
                    forall|q: int|
                        0 <= q < j ==> mrow@[q] == (if q < norms[i as int].len() {
                            1u8
                        } else {
                            0u8
                        }),
                decreases m - j,
            {
                if j < row_src.len() {
                    let c = row_src[j];
                    let cp = (c as u32) as usize;
                    if cp < self.indexer.len() {
                        row.push(self.indexer[cp]);
                    } else {
                        row.push(-1i64);
                    }
                    mrow.push(1u8);
                    proof {
                        assert(row@[j as int] == token_of(self.indexer@, norms[i as int][j as int]));
                    }
                } else {
                    row.push(0i64);
                    mrow.push(0u8);
                }
                j += 1;
            }
            let ghost pre_ids = ids.deep_view();
            let ghost pre_mask = mask.deep_view();
            let ghost rowv = row@;
            let ghost mrowv = mrow@;
            ids.push(row);
            mask.push(mrow);
            proof {
                assert(ids.deep_view() =~~= pre_ids.push(rowv));
                assert(mask.deep_view() =~~= pre_mask.push(mrowv));
            }
            i += 1;
        }
        Ok((ids, mask))
    }
}

/// The code point value of every character of `text`, in order.
pub fn text_to_unicode_values(text: &str) -> (r: Vec<usize>)
    ensures
        r@.len() == text@.len(),
        forall|i: int| 0 <= i < r@.len() ==> r@[i] == text@[i] as u32 as usize,
{
    let v = str_to_chars(text);
    let mut out: Vec<usize> = Vec::new();
    let mut i: usize = 0;
    while i < v.len()
        invariant
            i <= v.len(),
            v@ == text@,
            out@.len() == i,
            forall|k: int| 0 <= k < i ==> out@[k] == text@[k] as u32 as usize,
        decreases v.len() - i,
    {
        out.push((v[i] as u32) as usize);
        i += 1;
    }
    out
}

/// The largest of the given lengths, or `0` when there are none.
pub open spec fn seq_max(s: Seq<usize>) -> int
    decreases s.len(),
{
    if s.len() == 0 {
        0
    } else {
        let rest = seq_max(s.drop_last());
        if s.last() > rest {
            s.last() as int
        } else {
            rest
        }
    }
}

pub fn seq_max_exec(s: &Vec<usize>) -> (r: usize)
    ensures
        r == seq_max(s@),
{
    let mut m: usize = 0;
    let mut i: usize = 0;
    proof {
        assert(s@.take(0) =~= Seq::<usize>::empty());
    }
    while i < s.len()
        invariant
            i <= s.len(),
            m == seq_max(s@.take(i as int)),
        decreases s.len() - i,
    {
        proof {
            assert(s@.take(i + 1int).drop_last() =~= s@.take(i as int));
            assert(s@.take(i + 1int).last() == s@[i as int]);
        }
        if s[i] > m {
            m = s[i];
        }
        i += 1;
    }
    proof {
        assert(s@.take(s@.len() as int) =~= s@);
    }
    m
}

/// A 1/0 mask of shape `lengths.len() x max_len` (the given bound or the
/// largest length): `1` exactly where the position is real, `0` at padding.
pub fn length_to_mask(lengths: &Vec<usize>, max_len: Option<usize>) -> (r: Vec<Vec<u8>>)
    ensures
        ({
            let m = match max_len {
                Some(v) => v as int,
                None => seq_max(lengths@),
            };
            &&& r.deep_view().len() == lengths@.len()
            &&& forall|i: int|
                0 <= i < lengths@.len() ==> (#[trigger] r.deep_view()[i]).len() == m
            &&& forall|i: int, j: int|
                0 <= i < lengths@.len() && 0 <= j < m ==> #[trigger] r.deep_view()[i][j] == (if j
                    < lengths@[i] {
                    1u8
                } else {
                    0u8
                })
        }),
{
    let m: usize = match max_len {
        Some(v) => v,
        None => seq_max_exec(lengths),
    };
    let mut out: Vec<Vec<u8>> = Vec::new();
    let mut i: usize = 0;
    while i < lengths.len()
        invariant
            i <= lengths.len(),
            out.deep_view().len() == i,
            forall|k: int| 0 <= k < i ==> (#[trigger] out.deep_view()[k]).len() == m,
            forall|k: int, j: int|
                0 <= k < i && 0 <= j < m ==> #[trigger] out.deep_view()[k][j] == (if j
                    < lengths@[k] {
                    1u8
                } else {
                    0u8
                }),
        decreases lengths.len() - i,
    {
        let len_i = lengths[i];
        let mut row: Vec<u8> = Vec::new();
        let mut j: usize = 0;
        while j < m
            invariant
                j <= m,
                len_i == lengths@[i as int],
                0 <= i < lengths@.len(),
                row@.len() == j,
                forall|q: int|
                    0 <= q < j ==> row@[q] == (if q < lengths@[i as int] {
                        1u8
                    } else {
                        0u8
                    }),
            decreases m - j,
        {
            if j < len_i {
                row.push(1u8);
            } else {
                row.push(0u8);
            }
            j += 1;
        }
        let ghost pre_deep = out.deep_view();
        let ghost rowv = row@;
        out.push(row);
        proof {
            assert(out.deep_view() =~~= pre_deep.push(rowv));
        }
        i += 1;
    }
    out
}

/// The text mask of a batch: a 1/0 mask out to the longest length.
pub fn get_text_mask(text_ids_lengths: &Vec<usize>) -> (r: Vec<Vec<u8>>)
    ensures
        ({
            let m = seq_max(text_ids_lengths@);
            &&& r.deep_view().len() == text_ids_lengths@.len()
            &&& forall|i: int|
                0 <= i < text_ids_lengths@.len() ==> (#[trigger] r.deep_view()[i]).len() == m
            &&& forall|i: int, j: int|
                0 <= i < text_ids_lengths@.len() && 0 <= j < m ==> #[trigger] r.deep_view()[i][j]
                    == (if j < text_ids_lengths@[i] {
                    1u8
                } else {
                    0u8
                })
        }),
{
    let m = seq_max_exec(text_ids_lengths);
    length_to_mask(text_ids_lengths, Some(m))
}

} // verus!
