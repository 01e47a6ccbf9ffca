//! Voice styles: two named tensor blocks per voice, validated against their
//! declared dimensions and flattened into contiguous buffers.  The numeric
//! element type is generic; the caller parses the persisted representation
//! and hands the nested arrays in as plain values.

use vstd::prelude::*;

use crate::errors::TtsError;
use crate::textutil::extend_vec;

verus! {

/// One named tensor block as persisted: a 3-dimensional nested array, its
/// declared dimensions, and a type tag.
#[derive(Debug)]
pub struct StyleComponent<T> {
    pub data: Vec<Vec<Vec<T>>>,
    pub dims: Vec<usize>,
    pub dtype: String,
}

/// A persisted voice style: the text-to-latent tensor and the
/// duration-predictor tensor.
#[derive(Debug)]
pub struct VoiceStyleData<T> {
    pub style_ttl: StyleComponent<T>,
    pub style_dp: StyleComponent<T>,
}

/// A dense 3-dimensional tensor: a flat buffer in row-major order with its
/// shape.
#[derive(Debug)]
pub struct Tensor3<T> {
    pub data: Vec<T>,
    pub batch: usize,
    pub dim1: usize,
    pub dim2: usize,
}

impl<T> Tensor3<T> {
    /// The buffer holds exactly one value per position of the shape.
    pub open spec fn wf(self) -> bool {
        self.data@.len() == self.batch * self.dim1 * self.dim2
    }
}

/// A loaded voice style: both tensors flattened, immutable once built.
#[derive(Debug)]
pub struct Style<T> {
    pub ttl: Tensor3<T>,
    pub dp: Tensor3<T>,
}

/// The declared dimensions match the actual nested array lengths.
pub open spec fn comp_dims_ok<T>(c: StyleComponent<T>) -> bool {
    &&& c.dims@.len() == 3
    &&& c.data@.len() == c.dims@[0]
    &&& forall|i: int| 0 <= i < c.data@.len() ==> (#[trigger] c.data@[i])@.len() == c.dims@[1]
    &&& forall|i: int, j: int|
        0 <= i < c.data@.len() && 0 <= j < c.data@[i]@.len() ==> (#[trigger] c.data@[i]@[j])@.len()
            == c.dims@[2]
}

/// A single persisted voice style, batch size one, both blocks matching
/// their declared dimensions.
pub open spec fn single_style_ok<T>(d: VoiceStyleData<T>) -> bool {
    &&& comp_dims_ok(d.style_ttl)
    &&& comp_dims_ok(d.style_dp)
    &&& d.style_ttl.dims@[0] == 1
    &&& d.style_dp.dims@[0] == 1
}

/// The rows of one batch entry laid end to end.
pub open spec fn flat2<T>(rows: Seq<Vec<T>>) -> Seq<T>
    decreases rows.len(),
{
    if rows.len() == 0 {
        Seq::empty()
    } else {
        rows[0]@ + flat2(rows.skip(1))
    }
}

/// The whole nested array laid end to end, row-major.
pub open spec fn flat3<T>(data: Seq<Vec<Vec<T>>>) -> Seq<T>
    decreases data.len(),
{
    if data.len() == 0 {
        Seq::empty()
    } else {
        flat2(data[0]@) + flat3(data.skip(1))
    }
}

proof fn lemma_flat2_len<T>(rows: Seq<Vec<T>>, d2: int)
    requires
        forall|j: int| 0 <= j < rows.len() ==> (#[trigger] rows[j])@.len() == d2,
        d2 >= 0,
    ensures
        flat2(rows).len() == rows.len() * d2,
    decreases rows.len(),
{
    if rows.len() == 0 {
    } else {
        assert(forall|j: int| 0 <= j < rows.skip(1).len() ==> rows.skip(1)[j] == rows[j + 1]);
        lemma_flat2_len(rows.skip(1), d2);
        assert(rows[0]@.len() == d2);
        assert(flat2(rows).len() == d2 + (rows.len() - 1) * d2);
        assert(d2 + (rows.len() - 1) * d2 == rows.len() * d2) by (nonlinear_arith);
    }
}

proof fn lemma_flat3_len<T>(data: Seq<Vec<Vec<T>>>, d1: int, d2: int)
    requires
        forall|i: int| 0 <= i < data.len() ==> (#[trigger] data[i])@.len() == d1,
        forall|i: int, j: int|
            0 <= i < data.len() && 0 <= j < data[i]@.len() ==> (#[trigger] data[i]@[j])@.len()
                == d2,
        d1 >= 0,
        d2 >= 0,
    ensures
        flat3(data).len() == data.len() * d1 * d2,
    decreases data.len(),
{
    if data.len() == 0 {
        assert(flat3(data).len() == 0);
        assert(data.len() * d1 * d2 == 0) by (nonlinear_arith)
            requires
                data.len() == 0,
        ;
    } else {
        assert(forall|j: int| 0 <= j < data.skip(1).len() ==> data.skip(1)[j] == data[j + 1]);
        lemma_flat3_len(data.skip(1), d1, d2);
        lemma_flat2_len(data[0]@, d2);
        let n = data.len() as int;
        assert(flat2(data[0]@).len() == d1 * d2) by {
            assert(data[0]@.len() == d1);
            assert(flat2(data[0]@).len() == d1 * d2) by (nonlinear_arith)
                requires
                    flat2(data[0]@).len() == data[0]@.len() * d2,
                    data[0]@.len() == d1,
            ;
        }
        assert(flat3(data.skip(1)).len() == (n - 1) * d1 * d2);
        assert(flat3(data).len() == d1 * d2 + (n - 1) * d1 * d2);
        assert(d1 * d2 + (n - 1) * d1 * d2 == n * d1 * d2) by (nonlinear_arith);
        assert(flat3(data).len() == n * d1 * d2);
        assert(n * d1 * d2 == n * (d1 * d2)) by (nonlinear_arith);
        assert(flat3(data).len() == data.len() * d1 * d2) by {
            assert(data.len() * d1 * d2 == n * d1 * d2) by (nonlinear_arith)
                requires
                    n == data.len(),
            ;
        }
    }
}

/// Checks the declared dimensions of one block against the nested data.
fn validate_component<T>(c: &StyleComponent<T>) -> (r: bool)
    ensures
        r == comp_dims_ok(*c),
{
    if c.dims.len() != 3 {
        return false;
    }
    let d0 = c.dims[0];
    let d1 = c.dims[1];
    let d2 = c.dims[2];
    if c.data.len() != d0 {
        return false;
    }
    let mut i: usize = 0;
    while i < c.data.len()
        invariant
            i <= c.data@.len(),
            d1 == c.dims@[1],
            d2 == c.dims@[2],
            forall|k: int| 0 <= k < i ==> (#[trigger] c.data@[k])@.len() == d1,
            forall|k: int, j: int|
                0 <= k < i && 0 <= j < c.data@[k]@.len() ==> (#[trigger] c.data@[k]@[j])@.len()
                    == d2,
        decreases c.data@.len() - i,
    {
        if c.data[i].len() != d1 {
            return false;
        }
        let mut j: usize = 0;
        while j < c.data[i].len()
            invariant
                0 <= i < c.data@.len(),
                j <= c.data@[i as int]@.len(),
                d2 == c.dims@[2],
                forall|q: int| 0 <= q < j ==> (#[trigger] c.data@[i as int]@[q])@.len() == d2,
            decreases c.data@[i as int]@.len() - j,
        {
            if c.data[i][j].len() != d2 {
                return false;
            }
            j += 1;
        }
        i += 1;
    }
    true
}

/// Flattens one block in row-major order.
fn flatten_component<T: Copy>(c: &StyleComponent<T>) -> (r: Vec<T>)
    ensures
        r@ == flat3(c.data@),
{
    let mut out: Vec<T> = Vec::new();
    let mut i: usize = 0;
    proof {
        assert(c.data@.skip(0) =~= c.data@);
    }
    while i < c.data.len()
        invariant
            i <= c.data@.len(),
            flat3(c.data@) == out@ + flat3(c.data@.skip(i as int)),
        decreases c.data@.len() - i,
    {
        let ghost rest = c.data@.skip(i as int);
        proof {
            assert(rest[0] == c.data@[i as int]);
            assert(rest.skip(1) =~= c.data@.skip(i + 1int));
        }
        let batch = &c.data[i];
        let ghost rows = c.data@[i as int]@;
        let mut j: usize = 0;
        let ghost out_before = out@;
        proof {
            assert(rows.skip(0) =~= rows);
        }
        while j < batch.len()
            invariant
                j <= rows.len(),
                batch@ == rows,
                out@ + flat2(rows.skip(j as int)) == out_before + flat2(rows),
            decreases rows.len() - j,
        {
            proof {
                assert(rows.skip(j as int)[0] == rows[j as int]);
                assert(rows.skip(j as int).skip(1) =~= rows.skip(j + 1int));
            }
            extend_vec(&mut out, &batch[j]);
            j += 1;
        }
        proof {
            assert(rows.skip(rows.len() as int).len() == 0);
            assert(flat2(rows.skip(rows.len() as int)) =~= Seq::<T>::empty());
            assert(out@ + Seq::<T>::empty() =~= out@);
            assert(out@ == out_before + flat2(rows));
            assert(flat3(rest) == flat2(rows) + flat3(c.data@.skip(i + 1int)));
            assert((out_before + flat2(rows)) + flat3(c.data@.skip(i + 1int)) =~= out_before + (
            flat2(rows) + flat3(c.data@.skip(i + 1int))));
        }
        i += 1;
    }
    proof {
        assert(c.data@.skip(c.data@.len() as int).len() == 0);
        assert(flat3(c.data@.skip(c.data@.len() as int)) =~= Seq::<T>::empty());
        assert(out@ + Seq::<T>::empty() =~= out@);
    }
    out
}

/// Builds a voice style from one parsed representation (batch size one).
/// Fails with `StyleLoadError` if and only if the declared dimensions do
/// not match the stored data or the declared batch is not one.
pub fn load_voice_style_from_data<T: Copy>(data: VoiceStyleData<T>) -> (r: Result<
    Style<T>,
    TtsError,
>)
    ensures
        r is Ok <==> single_style_ok(data),
        r matches Err(e) ==> e == TtsError::StyleLoadError,
        r matches Ok(s) ==> {
            &&& s.ttl.data@ == flat3(data.style_ttl.data@)
            &&& s.dp.data@ == flat3(data.style_dp.data@)
            &&& s.ttl.batch == 1 && s.ttl.dim1 == data.style_ttl.dims@[1] && s.ttl.dim2
                == data.style_ttl.dims@[2]
            &&& s.dp.batch == 1 && s.dp.dim1 == data.style_dp.dims@[1] && s.dp.dim2
                == data.style_dp.dims@[2]
            &&& s.ttl.wf() && s.dp.wf()
        },
{
    if !validate_component(&data.style_ttl) || !validate_component(&data.style_dp) {
        return Err(TtsError::StyleLoadError);
    }
    if data.style_ttl.dims[0] != 1 || data.style_dp.dims[0] != 1 {
        return Err(TtsError::StyleLoadError);
    }
    let ttl_flat = flatten_component(&data.style_ttl);
    let dp_flat = flatten_component(&data.style_dp);
    proof {
        lemma_flat3_len(
            data.style_ttl.data@,
            data.style_ttl.dims@[1] as int,
            data.style_ttl.dims@[2] as int,
        );
        lemma_flat3_len(
            data.style_dp.data@,
            data.style_dp.dims@[1] as int,
            data.style_dp.dims@[2] as int,
        );
    }
    let ttl = Tensor3 {
        data: ttl_flat,
        batch: 1,
        dim1: data.style_ttl.dims[1],
        dim2: data.style_ttl.dims[2],
    };
    let dp = Tensor3 {
        data: dp_flat,
        batch: 1,
        dim1: data.style_dp.dims[1],
        dim2: data.style_dp.dims[2],
    };
    Ok(Style { ttl, dp })
}

/// The flattened text-to-latent blocks of a batch, laid end to end.
pub open spec fn batch_flat_ttl<T>(items: Seq<VoiceStyleData<T>>) -> Seq<T>
    decreases items.len(),
{
    if items.len() == 0 {
        Seq::empty()
    } else {
        flat3(items[0].style_ttl.data@) + batch_flat_ttl(items.skip(1))
    }
}

/// The flattened duration-predictor blocks of a batch, laid end to end.
pub open spec fn batch_flat_dp<T>(items: Seq<VoiceStyleData<T>>) -> Seq<T>
    decreases items.len(),
{
    if items.len() == 0 {
        Seq::empty()
    } else {
        flat3(items[0].style_dp.data@) + batch_flat_dp(items.skip(1))
    }
}

/// Every item of a batch is a valid single style and agrees with the first
/// item's declared shape.
pub open spec fn batch_styles_ok<T>(items: Seq<VoiceStyleData<T>>) -> bool {
    forall|i: int|
        0 <= i < items.len() ==> {
            &&& single_style_ok(#[trigger] items[i])
            &&& items[i].style_ttl.dims@ == items[0].style_ttl.dims@
            &&& items[i].style_dp.dims@ == items[0].style_dp.dims@
        }
}

/// Builds one batched voice style from several parsed representations: the
/// declared shapes are validated and required to agree, and the blocks are
/// written end to end into two contiguous buffers.  Fails with
/// `StyleLoadError` if and only if some item is malformed or disagrees.
pub fn load_voice_style_batch<T: Copy>(items: &Vec<VoiceStyleData<T>>) -> (r: Result<
    Style<T>,
    TtsError,
>)
    requires
        items@.len() >= 1,
    ensures
        r is Ok <==> batch_styles_ok(items@),
        r matches Err(e) ==> e == TtsError::StyleLoadError,
        r matches Ok(s) ==> {
            &&& s.ttl.data@ == batch_flat_ttl(items@)
            &&& s.dp.data@ == batch_flat_dp(items@)
            &&& s.ttl.batch == items@.len() && s.ttl.dim1 == items@[0].style_ttl.dims@[1]
                && s.ttl.dim2 == items@[0].style_ttl.dims@[2]
            &&& s.dp.batch == items@.len() && s.dp.dim1 == items@[0].style_dp.dims@[1]
                && s.dp.dim2 == items@[0].style_dp.dims@[2]
            &&& s.ttl.wf() && s.dp.wf()
        },
{
    let ghost all = items@;
    // validate every item against its own declared shape and the first's
    let mut i: usize = 0;
    while i < items.len()
        invariant
            i <= all.len(),
            all == items@,
            forall|k: int|
                0 <= k < i ==> {
                    &&& single_style_ok(#[trigger] all[k])
                    &&& all[k].style_ttl.dims@ == all[0].style_ttl.dims@
                    &&& all[k].style_dp.dims@ == all[0].style_dp.dims@
                },
        decreases all.len() - i,
    {
        let it = &items[i];
        if !validate_component(&it.style_ttl) || !validate_component(&it.style_dp) {
            return Err(TtsError::StyleLoadError);
        }
        if it.style_ttl.dims[0] != 1 || it.style_dp.dims[0] != 1 {
            return Err(TtsError::StyleLoadError);
        }
        if i > 0 {
            if !dims_equal(&it.style_ttl.dims, &items[0].style_ttl.dims) || !dims_equal(
                &it.style_dp.dims,
                &items[0].style_dp.dims,
            ) {
                return Err(TtsError::StyleLoadError);
            }
        }
        i += 1;
    }
    // flatten every item into the two contiguous buffers
    let mut ttl_flat: Vec<T> = Vec::new();
    let mut dp_flat: Vec<T> = Vec::new();
    let mut i: usize = 0;
    proof {
        assert(all.skip(0) =~= all);
    }
    while i < items.len()
        invariant
            i <= all.len(),
            all == items@,
            batch_styles_ok(all),
            all.len() >= 1,
            batch_flat_ttl(all) == ttl_flat@ + batch_flat_ttl(all.skip(i as int)),
            batch_flat_dp(all) == dp_flat@ + batch_flat_dp(all.skip(i as int)),
            ttl_flat@.len() == i * (all[0].style_ttl.dims@[1] * all[0].style_ttl.dims@[2]),
            dp_flat@.len() == i * (all[0].style_dp.dims@[1] * all[0].style_dp.dims@[2]),
        decreases all.len() - i,
    {
        let ghost rest = all.skip(i as int);
        proof {
            assert(rest[0] == all[i as int]);
            assert(rest.skip(1) =~= all.skip(i + 1int));
            assert(single_style_ok(all[i as int]));
        }
        let it = &items[i];
        let t = flatten_component(&it.style_ttl);
        let d = flatten_component(&it.style_dp);
        proof {
            lemma_flat3_len(
                all[i as int].style_ttl.data@,
                all[i as int].style_ttl.dims@[1] as int,
                all[i as int].style_ttl.dims@[2] as int,
            );
            lemma_flat3_len(
                all[i as int].style_dp.data@,
                all[i as int].style_dp.dims@[1] as int,
                all[i as int].style_dp.dims@[2] as int,
            );
        }
        extend_vec(&mut ttl_flat, &t);
        extend_vec(&mut dp_flat, &d);
        proof {
            assert((i + 1) * (all[0].style_ttl.dims@[1] * all[0].style_ttl.dims@[2]) == i * (
            all[0].style_ttl.dims@[1] * all[0].style_ttl.dims@[2]) + all[0].style_ttl.dims@[1]
                * all[0].style_ttl.dims@[2]) by (nonlinear_arith);
            assert((i + 1) * (all[0].style_dp.dims@[1] * all[0].style_dp.dims@[2]) == i * (
            all[0].style_dp.dims@[1] * all[0].style_dp.dims@[2]) + all[0].style_dp.dims@[1]
                * all[0].style_dp.dims@[2]) by (nonlinear_arith);
        }
        i += 1;
    }
    proof {
        assert(all.skip(all.len() as int).len() == 0);
        assert(batch_flat_ttl(all.skip(all.len() as int)) =~= Seq::<T>::empty());
        assert(batch_flat_dp(all.skip(all.len() as int)) =~= Seq::<T>::empty());
        assert(ttl_flat@ + Seq::<T>::empty() =~= ttl_flat@);
        assert(dp_flat@ + Seq::<T>::empty() =~= dp_flat@);
    }
    let n = items.len();
    let first = &items[0];
    let ttl = Tensor3 { data: ttl_flat, batch: n, dim1: first.style_ttl.dims[1], dim2: first.style_ttl.dims[2] };
    let dp = Tensor3 { data: dp_flat, batch: n, dim1: first.style_dp.dims[1], dim2: first.style_dp.dims[2] };
    proof {
        assert(ttl.data@.len() == n * (all[0].style_ttl.dims@[1] * all[0].style_ttl.dims@[2]));
        assert(n * (all[0].style_ttl.dims@[1] * all[0].style_ttl.dims@[2]) == n
            * all[0].style_ttl.dims@[1] * all[0].style_ttl.dims@[2]) by (nonlinear_arith);
        assert(n * (all[0].style_dp.dims@[1] * all[0].style_dp.dims@[2]) == n
            * all[0].style_dp.dims@[1] * all[0].style_dp.dims@[2]) by (nonlinear_arith);
    }
    Ok(Style { ttl, dp })
}

/// Whether two dimension lists are equal.
fn dims_equal(a: &Vec<usize>, b: &Vec<usize>) -> (r: bool)
    ensures
        r == (a@ == b@),
{
    if a.len() != b.len() {
        assert(a@ != b@) by {
            assert(a@.len() != b@.len());
        }
        return false;
    }
    let mut i: usize = 0;
    while i < a.len()
        invariant
            i <= a@.len(),
            a@.len() == b@.len(),
            forall|k: int| 0 <= k < i ==> a@[k] == b@[k],
        decreases a@.len() - i,
    {
        if a[i] != b[i] {
            assert(a@[i as int] != b@[i as int]);
            return false;
        }
        i += 1;
    }
    assert(a@ =~= b@);
    true
}

} // verus!
