//! Audio assembly: trims each chunk's waveform to its predicted duration,
//! concatenates the chunks in order, and inserts a fixed run of silence
//! samples before every chunk after the first.  A pure function over
//! samples of any copyable type; durations are counted in samples.

use vstd::prelude::*;

verus! {

/// A waveform trimmed to its predicted duration (clamped to its length).
pub open spec fn trimmed<T>(wav: Seq<T>, dur: int) -> Seq<T> {
    if dur < wav.len() {
        wav.take(dur)
    } else {
        wav
    }
}

/// A run of identical silence samples.
pub open spec fn silence_run<T>(len: int, z: T) -> Seq<T>
    recommends
        len >= 0,
{
    Seq::new(len as nat, |i: int| z)
}

/// The assembled waveform from position `k` on: each remaining chunk
/// trimmed, preceded by silence except before the very first chunk.
pub open spec fn assembled_from<T>(
    wavs: Seq<Vec<T>>,
    durs: Seq<usize>,
    silence_len: int,
    z: T,
    first: bool,
) -> Seq<T>
    recommends
        wavs.len() == durs.len(),
    decreases wavs.len(),
{
    if wavs.len() == 0 {
        Seq::empty()
    } else {
        let piece = trimmed(wavs[0]@, durs[0] as int);
        let head = if first {
            piece
        } else {
            silence_run(silence_len, z) + piece
        };
        head + assembled_from(wavs.skip(1), durs.skip(1), silence_len, z, false)
    }
}

/// The whole assembled waveform.
pub open spec fn assembled<T>(wavs: Seq<Vec<T>>, durs: Seq<usize>, silence_len: int, z: T) -> Seq<
    T,
> {
    assembled_from(wavs, durs, silence_len, z, true)
}

/// The sum of the durations, in samples.
pub open spec fn sum_durs(durs: Seq<usize>) -> int
    decreases durs.len(),
{
    if durs.len() == 0 {
        0
    } else {
        durs[0] + sum_durs(durs.skip(1))
    }
}

/// The total assembled duration in samples: every chunk's predicted
/// duration plus one silence run per gap between consecutive chunks.
pub open spec fn total_duration(durs: Seq<usize>, silence_len: int) -> int {
    if durs.len() == 0 {
        0
    } else {
        sum_durs(durs) + (durs.len() - 1) * silence_len
    }
}

pub proof fn lemma_sum_durs_nonneg(durs: Seq<usize>)
    ensures
        sum_durs(durs) >= 0,
    decreases durs.len(),
{
    if durs.len() > 0 {
        lemma_sum_durs_nonneg(durs.skip(1));
    }
}

/// Pushes `len` copies of the silence sample.
fn push_silence<T: Copy>(dst: &mut Vec<T>, len: usize, z: T)
    ensures
        final(dst)@ == old(dst)@ + silence_run(len as int, z),
{
    let mut k: usize = 0;
    while k < len
        invariant
            k <= len,
            dst@ == old(dst)@ + silence_run(k as int, z),
        decreases len - k,
    {
        dst.push(z);
        assert(silence_run(k + 1int, z) =~= silence_run(k as int, z).push(z));
        k += 1;
    }
}

/// Pushes the first `n` values of `src` (clamped to its length).
fn push_trimmed<T: Copy>(dst: &mut Vec<T>, src: &Vec<T>, n: usize)
    ensures
        final(dst)@ == old(dst)@ + trimmed(src@, n as int),
{
    let end = if n < src.len() {
        n
    } else {
        src.len()
    };
    let mut k: usize = 0;
    while k < end
        invariant
            k <= end <= src@.len(),
            dst@ == old(dst)@ + src@.take(k as int),
        decreases end - k,
    {
        dst.push(src[k]);
        assert(src@.take(k + 1int) =~= src@.take(k as int).push(src@[k as int]));
        k += 1;
    }
    proof {
        if n < src@.len() {
            assert(trimmed(src@, n as int) == src@.take(n as int));
        } else {
            assert(src@.take(src@.len() as int) =~= src@);
        }
    }
}

/// Assembles the per-chunk waveforms into one continuous waveform: chunk
/// `i` is trimmed to `durations[i]` samples (clamped to what was produced),
/// `silence_len` silence samples are inserted before every chunk after the
/// first, and the total duration is the sum of the durations plus the
/// inserted silence.
pub fn assemble<T: Copy>(
    wavs: &Vec<Vec<T>>,
    durations: &Vec<usize>,
    silence_len: usize,
    silence_value: T,
) -> (r: (Vec<T>, usize))
    requires
        wavs@.len() == durations@.len(),
        total_duration(durations@, silence_len as int) <= usize::MAX,
    ensures
        r.0@ == assembled(wavs@, durations@, silence_len as int, silence_value),
        r.1 == total_duration(durations@, silence_len as int),
{
    let ghost all_w = wavs@;
    let ghost all_d = durations@;
    let mut out: Vec<T> = Vec::new();
    let mut total: usize = 0;
    let mut i: usize = 0;
    proof {
        assert(all_w.skip(0) =~= all_w);
        assert(all_d.skip(0) =~= all_d);
    }
    while i < wavs.len()
        invariant
            i <= all_w.len(),
            all_w == wavs@,
            all_d == durations@,
            all_w.len() == all_d.len(),
            total_duration(all_d, silence_len as int) <= usize::MAX,
            assembled(all_w, all_d, silence_len as int, silence_value) == out@ + assembled_from(
                all_w.skip(i as int),
                all_d.skip(i as int),
                silence_len as int,
                silence_value,
                i == 0,
            ),
            i == 0 ==> total == 0,
            i > 0 ==> total == sum_durs(all_d.take(i as int)) + (i - 1) * silence_len,
        decreases all_w.len() - i,
    {
        let ghost rw = all_w.skip(i as int);
        let ghost rd = all_d.skip(i as int);
        proof {
            assert(rw[0] == all_w[i as int]);
            assert(rd[0] == all_d[i as int]);
            assert(rw.skip(1) =~= all_w.skip(i + 1int));
            assert(rd.skip(1) =~= all_d.skip(i + 1int));
            lemma_take_sum(all_d, i as int, silence_len as int);
        }
        let dur = durations[i];
        proof {
            // the running total stays within the final total
            lemma_take_sum(all_d, i + 1int, silence_len as int);
            lemma_sum_durs_nonneg(all_d.skip(i + 1int));
            assert(all_d.take(i + 1int) =~= all_d.take(i as int).push(all_d[i as int]));
            lemma_sum_snoc(all_d.take(i as int), all_d[i as int]);
            assert(i * silence_len <= (all_d.len() - 1) * silence_len) by (nonlinear_arith)
                requires
                    0 <= i <= all_d.len() - 1,
                    silence_len >= 0,
            ;
            assert(sum_durs(all_d.take(i + 1int)) + i * silence_len <= total_duration(
                all_d,
                silence_len as int,
            ));
            assert((i - 1) * silence_len + silence_len == i * silence_len) by (nonlinear_arith);
        }
        if i > 0 {
            push_silence(&mut out, silence_len, silence_value);
            assert(total + silence_len + dur <= usize::MAX);
            total = total + silence_len;
        }
        push_trimmed(&mut out, &wavs[i], dur);
        assert(total + dur <= usize::MAX);
        total = total + dur;
        proof {
            if i == 0 {
                assert(out@ == trimmed(all_w[0]@, all_d[0] as int));
                assert(sum_durs(all_d.take(1)) == all_d[0]);
            }
        }
        i += 1;
    }
    proof {
        assert(all_w.skip(all_w.len() as int).len() == 0);
        assert(assembled_from(
            all_w.skip(all_w.len() as int),
            all_d.skip(all_w.len() as int),
            silence_len as int,
            silence_value,
            i == 0,
        ) =~= Seq::<T>::empty());
        assert(out@ + Seq::<T>::empty() =~= out@);
        assert(all_d.take(all_d.len() as int) =~= all_d);
    }
    (out, total)
}

/// Summing one more duration.
pub proof fn lemma_sum_snoc(durs: Seq<usize>, d: usize)
    ensures
        sum_durs(durs.push(d)) == sum_durs(durs) + d,
    decreases durs.len(),
{
    if durs.len() == 0 {
        assert(durs.push(d)[0] == d);
        assert(durs.push(d).skip(1) =~= Seq::<usize>::empty());
        assert(sum_durs(durs.push(d).skip(1)) == 0);
        assert(sum_durs(durs) == 0);
    } else {
        assert(durs.push(d)[0] == durs[0]);
        assert(durs.push(d).skip(1) =~= durs.skip(1).push(d));
        lemma_sum_snoc(durs.skip(1), d);
    }
}

/// A prefix of the total never exceeds the whole: every term is
/// non-negative.
pub proof fn lemma_take_sum(durs: Seq<usize>, i: int, silence_len: int)
    requires
        0 <= i <= durs.len(),
        silence_len >= 0,
    ensures
        sum_durs(durs.take(i)) + sum_durs(durs.skip(i)) == sum_durs(durs),
        i > 0 ==> sum_durs(durs.take(i)) + (i - 1) * silence_len <= total_duration(
            durs,
            silence_len,
        ),
    decreases i,
{
    if i == 0 {
        assert(durs.take(0) =~= Seq::<usize>::empty());
        assert(durs.skip(0) =~= durs);
    } else {
        lemma_take_sum(durs, i - 1, silence_len);
        assert(durs.take(i) =~= durs.take(i - 1).push(durs[i - 1]));
        lemma_sum_snoc(durs.take(i - 1), durs[i - 1]);
        assert(durs.skip(i - 1)[0] == durs[i - 1]);
        assert(durs.skip(i - 1).skip(1) =~= durs.skip(i));
        lemma_sum_durs_nonneg(durs.skip(i));
        assert((i - 1) * silence_len <= (durs.len() - 1) * silence_len) by (nonlinear_arith)
            requires
                i <= durs.len(),
                silence_len >= 0,
        ;
    }
}

} // verus!
