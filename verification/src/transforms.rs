// Transforms over lazy Arrays: slicing along axis 0, stacking, the
// loop-based vmap, and the elementwise-fusion pass (`jit`).
use crate::array::{
    Array,
    ArrayModel,
    NodeModel,
    well_formed,
    evaluated_model,
    evaluates_to,
    eval_error,
    eval_error_on,
    value_on,
    float_free,
    models,
    product_after_first,
    same_shape,
    value,
};
use crate::device::Device;
use crate::dtype::DType;
use crate::error::MinmlError;
use crate::ops::Prim;
use crate::primitive::FloatKernels;
use crate::shape::{prod, shape_fits, shape_holdable};

use std::sync::Arc;
use vstd::prelude::*;

verus! {

/// An elementwise expression over the inputs of a fused node.
#[derive(Clone)]
pub enum FusedExpr {
    Input(usize),
    Add(Arc<FusedExpr>, Arc<FusedExpr>),
    Mul(Arc<FusedExpr>, Arc<FusedExpr>),
}

/// A copy of an expression.
pub fn copy_expr(e: &FusedExpr) -> (r: FusedExpr)
    ensures
        r == *e,
    decreases e,
{
    match e {
        FusedExpr::Input(k) => FusedExpr::Input(*k),
        FusedExpr::Add(l, r) => FusedExpr::Add(Arc::new(copy_expr(l)), Arc::new(copy_expr(r))),
        FusedExpr::Mul(l, r) => FusedExpr::Mul(Arc::new(copy_expr(l)), Arc::new(copy_expr(r))),
    }
}

/// Every input the expression reads is one of the first `n`.
pub open spec fn inputs_below(e: FusedExpr, n: nat) -> bool
    decreases e,
{
    match e {
        FusedExpr::Input(k) => k < n,
        FusedExpr::Add(l, r) => inputs_below(*l, n) && inputs_below(*r, n),
        FusedExpr::Mul(l, r) => inputs_below(*l, n) && inputs_below(*r, n),
    }
}

/// A node that computes a whole chain of elementwise adds and muls at once.
pub struct FusedElementwisePrim {
    pub expr: FusedExpr,
}

/// Row `i` of words laid out in rows of `per` words.
pub open spec fn row_words(w: Seq<u32>, per: nat, i: int) -> Seq<u32> {
    w.subrange(i * per, i * per + per)
}

/// The sub-arrays along axis 0 of an array of shape `shape` holding `w`.
pub open spec fn slice_models(shape: Seq<usize>, dtype: DType, w: Seq<u32>) -> Seq<ArrayModel> {
    Seq::new(
        shape[0] as nat,
        |i: int| evaluated_model(shape.skip(1), dtype, Device::Cpu, row_words(w, prod(shape.skip(1)), i)),
    )
}

/// The words of several arrays laid end to end.
pub open spec fn concat_all(ws: Seq<Seq<u32>>) -> Seq<u32>
    decreases ws.len(),
{
    if ws.len() == 0 {
        Seq::empty()
    } else {
        concat_all(ws.drop_last()) + ws.last()
    }
}

/// A shape that fits, with a non-zero first dimension, fits without it;
/// its element count is the first dimension times that of the rest.
pub proof fn lemma_fits_tail(s: Seq<usize>)
    requires
        s.len() >= 1,
        s[0] >= 1,
        shape_fits(s),
    ensures
        shape_fits(s.skip(1)),
        prod(s.skip(1)) <= prod(s),
{
    let t = s.skip(1);
    assert forall|i: int| 0 <= i <= t.len() implies #[trigger] prod(t.take(i)) <= usize::MAX by {
        let u = s.take(i + 1);
        assert(u.skip(1) =~= t.take(i));
        crate::array::lemma_prod_first(u);
        assert(prod(u) <= usize::MAX);
        assert(prod(t.take(i)) <= prod(u)) by (nonlinear_arith)
            requires
                prod(u) == (u[0] as nat) * prod(t.take(i)),
                u[0] >= 1,
        ;
    }
    crate::array::lemma_prod_first(s);
    assert(prod(t) <= prod(s)) by (nonlinear_arith)
        requires
            prod(s) == (s[0] as nat) * prod(t),
            s[0] >= 1,
    ;
}

/// A copy of a shape without its first dimension.
fn shape_tail(shape: &[usize]) -> (r: Vec<usize>)
    requires
        shape@.len() >= 1,
    ensures
        r@ == shape@.skip(1),
{
    let mut out: Vec<usize> = Vec::new();
    let mut d: usize = 1;
    while d < shape.len()
        invariant
            1 <= d <= shape@.len(),
            out@ == shape@.subrange(1, d as int),
        decreases shape@.len() - d,
    {
        out.push(shape[d]);
        d = d + 1;
        assert(out@ =~= shape@.subrange(1, d as int));
    }
    assert(shape@.subrange(1, shape@.len() as int) =~= shape@.skip(1));
    out
}

/// Splits an array along axis 0 into evaluated sub-arrays (CPU only). The
/// array itself is read, not changed.
pub fn slice_axis0<H: FloatKernels>(arr_in: &Array, host: &H) -> (r: Result<Vec<Array>, MinmlError>)
    ensures
        arr_in@.device != Device::Cpu ==> (r matches Err(MinmlError::Other(s)) && s@
            == "slice_axis0: CPU only for now"@),
        arr_in@.device == Device::Cpu && float_free(arr_in@) ==> (r is Ok <==> (value(arr_in@) is Some
            && arr_in@.shape.len() >= 1)),
        arr_in@.device == Device::Cpu && float_free(arr_in@) && value(arr_in@) is None ==> (r matches Err(
            e,
        ) && eval_error(arr_in@, e)),
        arr_in@.device == Device::Cpu && float_free(arr_in@) && value(arr_in@) is Some
            && arr_in@.shape.len() == 0 ==> (r matches Err(MinmlError::Other(s)) && s@
            == "slice_axis0: cannot slice a scalar"@),
        arr_in@.device == Device::Cpu && float_free(arr_in@) ==> (r matches Ok(parts) ==> models(
            parts@,
        ) == slice_models(arr_in@.shape, arr_in@.dtype, value(arr_in@)->0)),
        r matches Ok(parts) ==> arr_in@.device == Device::Cpu && arr_in@.shape.len() >= 1 && exists|
            w: Seq<u32>,
        |
            evaluates_to(arr_in@, w) && models(parts@) == slice_models(
                arr_in@.shape,
                arr_in@.dtype,
                w,
            ),
        r matches Ok(parts) ==> forall|i: int| 0 <= i < parts@.len() ==> (#[trigger] parts@[i]).wf(),
        r matches Ok(parts) ==> (value_on(*host, arr_in@) matches Some(w) && models(parts@)
            == slice_models(arr_in@.shape, arr_in@.dtype, w)),
        arr_in@.device == Device::Cpu ==> (r matches Err(e) ==> eval_error_on(*host, arr_in@, e) || (
        arr_in@.shape.len() == 0 && value_on(*host, arr_in@) is Some && (e matches MinmlError::Other(s)
            && s@ == "slice_axis0: cannot slice a scalar"@))),
        arr_in@.device == Device::Cpu && arr_in@.shape.len() == 0 ==> r is Err,
{
    proof {
        use_type_invariant(arr_in);
        arr_in.lemma_wf();
    }
    if arr_in.device() != Device::Cpu {
        return Err(MinmlError::Other(String::from_str("slice_axis0: CPU only for now")));
    }
    let data = arr_in.tolist_words(host)?;
    let shape = arr_in.shape();
    if shape.len() == 0 {
        return Err(MinmlError::Other(String::from_str("slice_axis0: cannot slice a scalar")));
    }
    let big_n = shape[0];
    let ghost tail = shape@.skip(1);
    let mut out: Vec<Array> = Vec::new();
    if big_n == 0 {
        assert(models(out@) =~= slice_models(arr_in@.shape, arr_in@.dtype, data@));
        return Ok(out);
    }
    proof {
        lemma_fits_tail(shape@);
        crate::array::lemma_prod_first(shape@);
    }
    let per = product_after_first(shape);
    let sub_shape = shape_tail(shape);
    let mut i: usize = 0;
    while i < big_n
        invariant
            i <= big_n == shape@[0],
            shape@ == arr_in@.shape,
            arr_in@.device == Device::Cpu,
            data@.len() == arr_in@.size == big_n * per,
            arr_in@.size * 4 <= usize::MAX,
            per == prod(tail),
            tail == shape@.skip(1),
            sub_shape@ == tail,
            shape_fits(tail),
            per <= arr_in@.size,
            out@.len() == i,
            forall|k: int|
                0 <= k < i ==> (#[trigger] out@[k])@ == slice_models(
                    arr_in@.shape,
                    arr_in@.dtype,
                    data@,
                )[k],
            forall|k: int| 0 <= k < i ==> (#[trigger] out@[k]).wf(),
        decreases big_n - i,
    {
        assert(i * per + per <= big_n * per) by (nonlinear_arith)
            requires
                i < big_n,
        ;
        let start = i * per;
        let mut chunk: Vec<u32> = Vec::new();
        let mut j: usize = 0;
        while j < per
            invariant
                j <= per,
                start + per <= data@.len() <= usize::MAX,
                chunk@ == data@.subrange(start as int, start + j),
            decreases per - j,
        {
            chunk.push(data[start + j]);
            j = j + 1;
            assert(chunk@ =~= data@.subrange(start as int, start + j));
        }
        let part = Array::from_words_with_shape(chunk, sub_shape.clone(), arr_in.dtype(), Device::Cpu);
        let part = match part {
            Ok(a) => a,
            Err(e) => {
                assert(false);
                return Err(e);
            },
        };
        out.push(part);
        i = i + 1;
    }
    assert(models(out@) =~= slice_models(arr_in@.shape, arr_in@.dtype, data@));
    Ok(out)
}

/// Stacks equally shaped arrays along a new first axis into one evaluated
/// array (CPU only). The parts are read, not changed.
pub fn stack<H: FloatKernels>(parts: &[Array], host: &H) -> (r: Result<Array, MinmlError>)
    ensures
        parts@.len() == 0 ==> (r matches Err(MinmlError::Other(s)) && s@ == "stack: empty input"@),
        parts@.len() >= 1 && !stack_consistent(models(parts@)) ==> (r matches Err(
            MinmlError::Other(_),
        )),
        forall|i: int|
            0 <= i < parts@.len() && #[trigger] first_mismatch(models(parts@), i) ==> (r matches Err(
                MinmlError::Other(s),
            ) && s@ == mismatch_text(parts@[0]@, parts@[i]@)),
        parts@.len() >= 1 && stack_consistent(models(parts@)) && parts@[0]@.device != Device::Cpu
            ==> (r matches Err(MinmlError::Other(s)) && s@ == "stack: CPU only for now"@),
        parts@.len() >= 1 && stack_consistent(models(parts@)) && parts@[0]@.device == Device::Cpu
            && !shape_holdable(stacked_shape(parts@.len(), parts@[0]@.shape)) ==> (r matches Err(
            MinmlError::Other(s),
        ) && s@ == "stack: result too large"@),
        parts@.len() >= 1 && stack_consistent(models(parts@)) && parts@[0]@.device == Device::Cpu
            && shape_holdable(stacked_shape(parts@.len(), parts@[0]@.shape)) && all_values(
            models(parts@),
        ) ==> (r matches Ok(a) && a@ == evaluated_model(
            stacked_shape(parts@.len(), parts@[0]@.shape),
            parts@[0]@.dtype,
            Device::Cpu,
            concat_all(values_of(models(parts@))),
        )),
        r matches Ok(a) ==> a.wf() && stacked_from(models(parts@), a@),
        parts@.len() >= 1 && stack_consistent(models(parts@)) && parts@[0]@.device == Device::Cpu
            && shape_holdable(stacked_shape(parts@.len(), parts@[0]@.shape)) ==> forall|i: int|
            0 <= i < parts@.len() && #[trigger] first_failing(models(parts@), i) ==> (r matches Err(e)
                && eval_error(parts@[i]@, e)),
        r matches Ok(a) ==> stacked_on(*host, models(parts@), a@),
{
    crate::array::all_well_formed(parts);
    if parts.len() == 0 {
        return Err(MinmlError::Other(String::from_str("stack: empty input")));
    }
    let ghost ms = models(parts@);
    let base_shape = parts[0].shape();
    let dev = parts[0].device();
    let dt = parts[0].dtype();
    let mut i: usize = 0;
    while i < parts.len()
        invariant
            i <= parts@.len(),
            ms == models(parts@),
            parts@.len() >= 1,
            base_shape@ == ms[0].shape,
            dev == ms[0].device,
            dt == ms[0].dtype,
            forall|k: int| 0 <= k < i ==> part_matches(ms[0], #[trigger] ms[k]),
        decreases parts@.len() - i,
    {
        let p = &parts[i];
        assert(ms[i as int] == p@);
        if !same_shape(p.shape(), base_shape) {
            assert(!part_matches(ms[0], ms[i as int]));
            assert(first_mismatch(ms, i as int));
            return Err(MinmlError::Other(String::from_str("stack: shape mismatch")));
        }
        if p.device() != dev {
            assert(!part_matches(ms[0], ms[i as int]));
            assert(first_mismatch(ms, i as int));
            return Err(MinmlError::Other(String::from_str("stack: device mismatch")));
        }
        if p.dtype() != dt {
            assert(!part_matches(ms[0], ms[i as int]));
            assert(first_mismatch(ms, i as int));
            return Err(MinmlError::Other(String::from_str("stack: dtype mismatch")));
        }
        i = i + 1;
    }
    assert(stack_consistent(ms));
    if dev != Device::Cpu {
        return Err(MinmlError::Other(String::from_str("stack: CPU only for now")));
    }
    let n = parts.len();
    let mut out_shape: Vec<usize> = vec![n];
    let mut d: usize = 0;
    while d < base_shape.len()
        invariant
            d <= base_shape@.len(),
            out_shape@ == seq![n] + base_shape@.take(d as int),
        decreases base_shape@.len() - d,
    {
        out_shape.push(base_shape[d]);
        d = d + 1;
        assert(out_shape@ =~= seq![n] + base_shape@.take(d as int));
    }
    assert(base_shape@.take(base_shape@.len() as int) =~= base_shape@);
    let ghost total_shape = seq![n] + base_shape@;
    assert(out_shape@ == stacked_shape(parts@.len(), parts@[0]@.shape));
    if crate::shape::checked_elems(out_shape.as_slice()).is_none() {
        return Err(MinmlError::Other(String::from_str("stack: result too large")));
    }
    proof {
        crate::shape::lemma_prod_append(seq![n], base_shape@);
        crate::array::lemma_prod_single(n);
    }
    let mut buf: Vec<u32> = Vec::new();
    let ghost mut ws: Seq<Seq<u32>> = Seq::empty();
    let mut k: usize = 0;
    while k < n
        invariant
            k <= n == parts@.len(),
            ms == models(parts@),
            stack_consistent(ms),
            forall|q: int| 0 <= q < parts@.len() ==> (#[trigger] parts@[q]).wf(),
            ws.len() == k,
            ms[0].device == Device::Cpu,
            shape_holdable(stacked_shape(parts@.len(), parts@[0]@.shape)),
            forall|q: int| 0 <= q < k ==> evaluates_to(#[trigger] ms[q], ws[q]),
            forall|q: int| 0 <= q < k ==> value_on(*host, #[trigger] ms[q]) == Some(ws[q]),
            all_values(ms) ==> ws == values_of(ms).take(k as int),
            buf@ == concat_all(ws),
            buf@.len() == k * ms[0].size,
            prod(total_shape) == n * ms[0].size,
            prod(total_shape) * 4 <= usize::MAX,
        decreases n - k,
    {
        let words = parts[k].tolist_words(host);
        let words = match words {
            Ok(w) => w,
            Err(e) => {
                proof {
                    assert(ms[k as int] == parts@[k as int]@);
                    if all_values(ms) {
                        assert(float_free(ms[k as int]) && value(ms[k as int]) is Some);
                    }
                    if float_free(ms[k as int]) {
                        assert(value(ms[k as int]) is None);
                    } else {
                        assert(!(float_free(ms[k as int]) && value(ms[k as int]) is Some));
                    }
                }
                return Err(e);
            },
        };
        proof {
            assert(ms[k as int] == parts@[k as int]@);
            assert(ms[k as int].size == ms[0].size);
            assert(k * ms[0].size + ms[0].size <= n * ms[0].size) by (nonlinear_arith)
                requires
                    k < n,
            ;
        }
        let ghost before = buf@;
        let mut j: usize = 0;
        while j < words.len()
            invariant
                j <= words@.len(),
                before.len() + words@.len() <= usize::MAX,
                buf@ == before + words@.take(j as int),
            decreases words@.len() - j,
        {
            buf.push(words[j]);
            j = j + 1;
            assert(buf@ =~= before + words@.take(j as int));
        }
        proof {
            assert(words@.take(words@.len() as int) =~= words@);
            let old_ws = ws;
            ws = ws.push(words@);
            assert(ws.drop_last() =~= old_ws);
            if all_values(ms) {
                assert(float_free(ms[k as int]));
                assert(ws =~= values_of(ms).take(k + 1));
            }
            assert((k + 1) * ms[0].size == k * ms[0].size + ms[0].size) by (nonlinear_arith);
        }
        k = k + 1;
    }
    proof {
        if all_values(ms) {
            assert(values_of(ms).take(n as int) =~= values_of(ms));
        }
    }
    let ghost tot = total_shape;
    let r = Array::from_words_with_shape(buf, out_shape, dt, Device::Cpu);
    proof {
        if r is Ok {
            assert(forall|q: int| 0 <= q < ws.len() ==> value_on(*host, #[trigger] ms[q]) == Some(ws[q]));
        }
    }
    match r {
        Ok(a) => Ok(a),
        Err(e) => {
            assert(false);
            Err(e)
        },
    }
}

/// `a` is the stack of parts `ms`, each part evaluated with the float
/// kernels `h`: their values laid end to end under a new first axis.
pub open spec fn stacked_on<H: FloatKernels>(h: H, ms: Seq<ArrayModel>, a: ArrayModel) -> bool {
    &&& ms.len() >= 1
    &&& exists|ws: Seq<Seq<u32>>|
        ws.len() == ms.len() && (forall|i: int| 0 <= i < ws.len() ==> value_on(h, #[trigger] ms[i]) == Some(ws[i]))
            && a == evaluated_model(stacked_shape(ms.len(), ms[0].shape), ms[0].dtype, Device::Cpu, concat_all(ws))
}

/// `a` is the stack of parts `ms`: the parts' words (each a possible
/// outcome of evaluating the part) laid end to end under a new first axis.
pub open spec fn stacked_from(ms: Seq<ArrayModel>, a: ArrayModel) -> bool {
    &&& ms.len() >= 1
    &&& stack_consistent(ms)
    &&& exists|ws: Seq<Seq<u32>>|
        ws.len() == ms.len() && (forall|i: int| 0 <= i < ws.len() ==> evaluates_to(#[trigger] ms[i], ws[i]))
            && a == evaluated_model(stacked_shape(ms.len(), ms[0].shape), ms[0].dtype, Device::Cpu, concat_all(ws))
}

/// The shape of `n` stacked parts of shape `shape`.
pub open spec fn stacked_shape(n: nat, shape: Seq<usize>) -> Seq<usize> {
    seq![n as usize] + shape
}

/// Part `p` may be stacked with the first part `first`.
pub open spec fn part_matches(first: ArrayModel, p: ArrayModel) -> bool {
    &&& p.shape == first.shape
    &&& p.device == first.device
    &&& p.dtype == first.dtype
}

/// Part `i` is the first whose evaluation fails, every part before it
/// evaluating without a floating-point kernel.
pub open spec fn first_failing(ms: Seq<ArrayModel>, i: int) -> bool {
    &&& float_free(ms[i])
    &&& value(ms[i]) is None
    &&& forall|j: int| 0 <= j < i ==> float_free(ms[j]) && #[trigger] value(ms[j]) is Some
}

/// Part `i` is the first that cannot be stacked with the first part.
pub open spec fn first_mismatch(ms: Seq<ArrayModel>, i: int) -> bool {
    &&& !part_matches(ms[0], ms[i])
    &&& forall|j: int| 0 <= j < i ==> #[trigger] part_matches(ms[0], ms[j])
}

/// What stacking says of a part that differs from the first part: the
/// shape is compared first, then the device, then the element type.
pub open spec fn mismatch_text(first: ArrayModel, p: ArrayModel) -> Seq<char> {
    if p.shape != first.shape {
        "stack: shape mismatch"@
    } else if p.device != first.device {
        "stack: device mismatch"@
    } else {
        "stack: dtype mismatch"@
    }
}

/// All parts share the first part's shape, device and element type.
pub open spec fn stack_consistent(ms: Seq<ArrayModel>) -> bool {
    forall|i: int| 0 <= i < ms.len() ==> part_matches(ms[0], #[trigger] ms[i])
}

/// Every part is float-free and evaluates successfully.
pub open spec fn all_values(ms: Seq<ArrayModel>) -> bool {
    forall|i: int| 0 <= i < ms.len() ==> float_free(#[trigger] ms[i]) && value(ms[i]) is Some
}

/// The values of float-free parts.
pub open spec fn values_of(ms: Seq<ArrayModel>) -> Seq<Seq<u32>> {
    ms.map_values(|m: ArrayModel| value(m)->0)
}

/// A batched argument can be split for a vmap of `big_n` iterations: it is
/// batched along axis 0, is not a scalar, has `big_n` rows and lives on the
/// CPU.
pub open spec fn batchable(arg: ArrayModel, axis: i32, big_n: usize) -> bool {
    &&& axis == 0
    &&& arg.shape.len() >= 1
    &&& arg.shape[0] == big_n
    &&& arg.device == Device::Cpu
}

/// The layout of a batched argument allows a split into `big_n` rows.
pub open spec fn batch_shape_ok(arg: ArrayModel, axis: i32, big_n: usize) -> bool {
    &&& axis == 0
    &&& arg.shape.len() >= 1
    &&& arg.shape[0] == big_n
}

/// What vmap says of a batched argument whose layout does not allow a
/// split: the axis is checked first, then the rank, then the length.
pub open spec fn unbatchable_text(arg: ArrayModel, axis: i32, big_n: usize) -> Seq<char> {
    if axis != 0 {
        "only axis 0 supported"@
    } else if arg.shape.len() == 0 {
        "cannot batch over a scalar"@
    } else {
        "batched dims disagree"@
    }
}

/// `e` is what splitting a batched argument can fail with: the message of
/// a layout that does not allow the split, the CPU-only message of slicing,
/// or an error of evaluating the argument (for an argument without a
/// floating-point kernel, the error its evaluation gives).
pub open spec fn arg_error<H: FloatKernels>(h: H, arg: ArrayModel, axis: i32, big_n: usize, e: MinmlError) -> bool {
    ||| !batch_shape_ok(arg, axis, big_n) && (e matches MinmlError::Vmap(s) && s@ == unbatchable_text(
        arg,
        axis,
        big_n,
    ))
    ||| batch_shape_ok(arg, axis, big_n) && arg.device != Device::Cpu && (e matches MinmlError::Other(s)
        && s@ == "slice_axis0: CPU only for now"@)
    ||| batch_shape_ok(arg, axis, big_n) && arg.device == Device::Cpu && (float_free(arg) ==> eval_error(
        arg,
        e,
    )) && eval_error_on(h, arg, e)
}

/// `e` is what preparing a vmap can fail with: the length mismatch of the
/// arguments and their axes, or the error of splitting a batched argument.
pub open spec fn prepare_error<H: FloatKernels>(h: H, args: Seq<Array>, in_axes: Seq<i32>, big_n: usize, e: MinmlError) -> bool {
    ||| args.len() != in_axes.len() && (e matches MinmlError::Vmap(s) && s@
        == "args/in_axes size mismatch"@)
    ||| args.len() == in_axes.len() && exists|i: int|
        0 <= i < args.len() && in_axes[i] >= 0 && #[trigger] arg_error(h, args[i]@, in_axes[i], big_n, e)
}

/// Argument `i` is the first batched argument whose layout does not allow
/// a split, and every batched argument before it can be split.
pub open spec fn first_unbatchable(args: Seq<Array>, in_axes: Seq<i32>, big_n: usize, i: int) -> bool {
    &&& in_axes[i] >= 0
    &&& !batch_shape_ok(args[i]@, in_axes[i], big_n)
    &&& forall|j: int|
        0 <= j < i && in_axes[j] >= 0 ==> {
            &&& #[trigger] batch_shape_ok(args[j]@, in_axes[j], big_n)
            &&& args[j]@.device == Device::Cpu
            &&& float_free(args[j]@)
            &&& value(args[j]@) is Some
        }
}

/// Every batched argument can be split, and evaluates without a
/// floating-point kernel.
pub open spec fn vmap_args_ready(args: Seq<Array>, in_axes: Seq<i32>, big_n: usize) -> bool {
    forall|k: int|
        0 <= k < args.len() && in_axes[k] >= 0 ==> {
            &&& batchable(#[trigger] args[k]@, in_axes[k], big_n)
            &&& float_free(args[k]@)
            &&& value(args[k]@) is Some
        }
}

/// Iteration `b` of a vmap: `f`, in some state, called on the arguments of
/// row `b`, returned `leaves`.
pub open spec fn vmap_call<H: FloatKernels, F: FnMut(usize, &[Array]) -> Result<Vec<Array>, MinmlError>>(
    h: H,
    args: Seq<Array>,
    in_axes: Seq<i32>,
    big_n: usize,
    b: int,
    leaves: Vec<Array>,
) -> bool {
    exists|g: F, a: &[Array]|
        vmap_row_ok(h, args, in_axes, big_n, b, a@) && #[trigger] call_ensures(
            g,
            (b as usize, a),
            Ok::<Vec<Array>, MinmlError>(leaves),
        )
}

/// The iterations of a vmap: iteration `b` returned `calls[b]`.
pub open spec fn vmap_calls<H: FloatKernels, F: FnMut(usize, &[Array]) -> Result<Vec<Array>, MinmlError>>(
    h: H,
    args: Seq<Array>,
    in_axes: Seq<i32>,
    big_n: usize,
    calls: Seq<Vec<Array>>,
) -> bool {
    &&& calls.len() == big_n
    &&& forall|b: int| 0 <= b < big_n ==> #[trigger] vmap_call::<H, F>(h, args, in_axes, big_n, b, calls[b])
}

/// Iteration `b` of a vmap: `f`, in some state, called on the arguments of
/// row `b`, failed with `e`.
pub open spec fn vmap_call_failed<H: FloatKernels, F: FnMut(usize, &[Array]) -> Result<Vec<Array>, MinmlError>>(
    h: H,
    args: Seq<Array>,
    in_axes: Seq<i32>,
    big_n: usize,
    b: int,
    e: MinmlError,
) -> bool {
    exists|g: F, a: &[Array]|
        vmap_row_ok(h, args, in_axes, big_n, b, a@) && #[trigger] call_ensures(
            g,
            (b as usize, a),
            Err::<Vec<Array>, MinmlError>(e),
        )
}

/// The iterations before `calls.len()` returned `calls`, and the next one
/// failed with `e`.
pub open spec fn vmap_failed_at<H: FloatKernels, F: FnMut(usize, &[Array]) -> Result<Vec<Array>, MinmlError>>(
    h: H,
    args: Seq<Array>,
    in_axes: Seq<i32>,
    big_n: usize,
    calls: Seq<Vec<Array>>,
    e: MinmlError,
) -> bool {
    &&& calls.len() < big_n
    &&& forall|c: int| 0 <= c < calls.len() ==> #[trigger] vmap_call::<H, F>(h, args, in_axes, big_n, c, calls[c])
    &&& vmap_call_failed::<H, F>(h, args, in_axes, big_n, calls.len() as int, e)
}

/// Argument `i` of iteration `b` of a vmap over `args`: an argument that
/// is not batched as it is, and a batched one the sub-array `b` of the
/// words it evaluates to with the float kernels `h`.
pub open spec fn vmap_arg_ok<H: FloatKernels>(h: H, arg: ArrayModel, axis: i32, big_n: usize, b: int, part: ArrayModel) -> bool {
    if axis < 0 {
        part == arg
    } else {
        &&& axis == 0
        &&& arg.shape.len() >= 1
        &&& arg.shape[0] == big_n
        &&& arg.device == Device::Cpu
        &&& value_on(h, arg) matches Some(w) && slice_models(arg.shape, arg.dtype, w)[b] == part
    }
}

/// The arguments `row` of iteration `c` are those of a vmap over `args`.
pub open spec fn vmap_row_ok<H: FloatKernels>(h: H, args: Seq<Array>, in_axes: Seq<i32>, big_n: usize, c: int, row: Seq<Array>) -> bool {
    &&& row.len() == args.len()
    &&& forall|k: int|
        0 <= k < args.len() ==> #[trigger] vmap_arg_ok(h, args[k]@, in_axes[k], big_n, c, row[k]@)
            && row[k].wf()
}

/// Column `l` of per-iteration leaves.
pub open spec fn column(all: Seq<Seq<ArrayModel>>, l: int) -> Seq<ArrayModel> {
    Seq::new(all.len(), |b: int| all[b][l])
}

/// The leaves of every iteration, as models.
pub open spec fn leaf_models(all: Seq<Vec<Array>>) -> Seq<Seq<ArrayModel>> {
    all.map_values(|v: Vec<Array>| models(v@))
}

/// The arguments of each vmap iteration: batched arguments (axis 0) are
/// split along their first axis, the others are passed through. Fails on
/// a length mismatch between `args` and `in_axes`, on a batched argument
/// that is not batched along axis 0, is a scalar, or is not `big_n` long,
/// and when slicing fails.
pub fn vmap_prepare<H: FloatKernels>(big_n: usize, args: &[Array], in_axes: &[i32], host: &H) -> (r:
    Result<Vec<Vec<Array>>, MinmlError>)
    ensures
        args@.len() != in_axes@.len() ==> (r matches Err(MinmlError::Vmap(s)) && s@
            == "args/in_axes size mismatch"@),
        r matches Ok(per) ==> per@.len() == big_n && args@.len() == in_axes@.len() && forall|b: int|
            0 <= b < big_n ==> vmap_row_ok(*host, args@, in_axes@, big_n, b, (#[trigger] per@[b])@),
        r is Ok ==> forall|k: int|
            0 <= k < args@.len() && in_axes@[k] >= 0 ==> batchable(
                #[trigger] args@[k]@,
                in_axes@[k],
                big_n,
            ),
        args@.len() == in_axes@.len() && vmap_args_ready(args@, in_axes@, big_n) ==> r is Ok,
        args@.len() == in_axes@.len() ==> forall|i: int|
            0 <= i < args@.len() && #[trigger] first_unbatchable(args@, in_axes@, big_n, i) ==> (r matches Err(
                MinmlError::Vmap(s),
            ) && s@ == unbatchable_text(args@[i]@, in_axes@[i], big_n)),
        r matches Err(e) ==> prepare_error(*host, args@, in_axes@, big_n, e),
{
    crate::array::all_well_formed(args);
    if args.len() != in_axes.len() {
        return Err(MinmlError::Vmap("args/in_axes size mismatch"));
    }
    let mut sliced: Vec<Vec<Array>> = Vec::new();
    let mut i: usize = 0;
    while i < args.len()
        invariant
            i <= args@.len() == in_axes@.len(),
            forall|k: int| 0 <= k < args@.len() ==> (#[trigger] args@[k]).wf(),
            sliced@.len() == i,
            forall|k: int|
                0 <= k < i && in_axes@[k] >= 0 ==> batchable(
                    #[trigger] args@[k]@,
                    in_axes@[k],
                    big_n,
                ),
            forall|k: int|
                0 <= k < i && in_axes@[k] >= 0 ==> {
                    &&& (#[trigger] sliced@[k])@.len() == big_n
                    &&& forall|b: int|
                        0 <= b < big_n ==> vmap_arg_ok(*host,
                            args@[k]@,
                            in_axes@[k],
                            big_n,
                            b,
                            #[trigger] sliced@[k]@[b]@,
                        ) && sliced@[k]@[b].wf()
                },
        decreases args@.len() - i,
    {
        if in_axes[i] < 0 {
            sliced.push(Vec::new());
        } else {
            if in_axes[i] != 0 {
                assert(!batchable(args@[i as int]@, in_axes@[i as int], big_n));
                assert(!batch_shape_ok(args@[i as int]@, in_axes@[i as int], big_n));
                let e = MinmlError::Vmap("only axis 0 supported");
                assert(arg_error(*host, args@[i as int]@, in_axes@[i as int], big_n, e));
                return Err(e);
            }
            if args[i].shape().len() == 0 {
                assert(!batchable(args@[i as int]@, in_axes@[i as int], big_n));
                assert(!batch_shape_ok(args@[i as int]@, in_axes@[i as int], big_n));
                let e = MinmlError::Vmap("cannot batch over a scalar");
                assert(arg_error(*host, args@[i as int]@, in_axes@[i as int], big_n, e));
                return Err(e);
            }
            if args[i].shape()[0] != big_n {
                assert(!batchable(args@[i as int]@, in_axes@[i as int], big_n));
                assert(!batch_shape_ok(args@[i as int]@, in_axes@[i as int], big_n));
                let e = MinmlError::Vmap("batched dims disagree");
                assert(arg_error(*host, args@[i as int]@, in_axes@[i as int], big_n, e));
                return Err(e);
            }
            assert(batch_shape_ok(args@[i as int]@, in_axes@[i as int], big_n));
            let parts = match slice_axis0(&args[i], host) {
                Ok(p) => p,
                Err(e) => {
                    assert(!(batchable(args@[i as int]@, in_axes@[i as int], big_n) && float_free(
                        args@[i as int]@,
                    ) && value(args@[i as int]@) is Some));
                    assert(arg_error(*host, args@[i as int]@, in_axes@[i as int], big_n, e));
                    return Err(e);
                },
            };
            proof {
                assert(models(parts@).len() == parts@.len());
                assert(parts@.len() == big_n);
                assert forall|b: int| 0 <= b < big_n implies vmap_arg_ok(*host,
                    args@[i as int]@,
                    in_axes@[i as int],
                    big_n,
                    b,
                    #[trigger] parts@[b]@,
                ) by {
                    assert(models(parts@)[b] == parts@[b]@);
                }
            }
            sliced.push(parts);
        }
        i = i + 1;
    }
    let mut per: Vec<Vec<Array>> = Vec::new();
    let mut b: usize = 0;
    while b < big_n
        invariant
            b <= big_n,
            args@.len() == in_axes@.len() == sliced@.len(),
            forall|k: int| 0 <= k < args@.len() ==> (#[trigger] args@[k]).wf(),
            forall|k: int|
                0 <= k < args@.len() && in_axes@[k] >= 0 ==> {
                    &&& (#[trigger] sliced@[k])@.len() == big_n
                    &&& forall|c: int|
                        0 <= c < big_n ==> vmap_arg_ok(*host,
                            args@[k]@,
                            in_axes@[k],
                            big_n,
                            c,
                            #[trigger] sliced@[k]@[c]@,
                        ) && sliced@[k]@[c].wf()
                },
            per@.len() == b,
            forall|c: int| 0 <= c < b ==> vmap_row_ok(*host, args@, in_axes@, big_n, c, (#[trigger] per@[c])@),
        decreases big_n - b,
    {
        let mut row: Vec<Array> = Vec::new();
        let mut k: usize = 0;
        while k < args.len()
            invariant
                k <= args@.len() == in_axes@.len() == sliced@.len(),
                b < big_n,
                forall|q: int| 0 <= q < args@.len() ==> (#[trigger] args@[q]).wf(),
                forall|q: int|
                    0 <= q < args@.len() && in_axes@[q] >= 0 ==> {
                        &&& (#[trigger] sliced@[q])@.len() == big_n
                        &&& forall|c: int|
                            0 <= c < big_n ==> vmap_arg_ok(*host,
                                args@[q]@,
                                in_axes@[q],
                                big_n,
                                c,
                                #[trigger] sliced@[q]@[c]@,
                            ) && sliced@[q]@[c].wf()
                    },
                row@.len() == k,
                forall|q: int|
                    0 <= q < k ==> #[trigger] vmap_arg_ok(*host,
                        args@[q]@,
                        in_axes@[q],
                        big_n,
                        b as int,
                        row@[q]@,
                    ) && row@[q].wf(),
            decreases args@.len() - k,
        {
            if in_axes[k] >= 0 {
                let a = sliced[k][b].clone();
                proof {
                    assert(vmap_arg_ok(*host, args@[k as int]@, in_axes@[k as int], big_n, b as int, sliced@[k as int]@[b as int]@));
                }
                row.push(a);
            } else {
                row.push(args[k].clone());
            }
            k = k + 1;
        }
        let ghost rowv = row@;
        let ghost before = per@;
        per.push(row);
        proof {
            assert(vmap_row_ok(*host, args@, in_axes@, big_n, b as int, rowv));
            assert forall|c: int| 0 <= c < b + 1 implies vmap_row_ok(*host,
                args@,
                in_axes@,
                big_n,
                c,
                (#[trigger] per@[c])@,
            ) by {
                if c < b {
                    assert(per@[c] == before[c]);
                } else {
                    assert(per@[c]@ == rowv);
                }
            }
        }
        b = b + 1;
    }
    Ok(per)
}

/// A column of leaves that stacking accepts: the parts agree in shape,
/// device and element type, live on the CPU, their stack can be held, and
/// each evaluates without a floating-point kernel.
pub open spec fn column_stackable(ms: Seq<ArrayModel>) -> bool {
    &&& stack_consistent(ms)
    &&& ms[0].device == Device::Cpu
    &&& shape_holdable(stacked_shape(ms.len(), ms[0].shape))
    &&& all_values(ms)
}

/// The iterations returned the same number of leaves.
pub open spec fn leaf_counts_agree(all: Seq<Vec<Array>>) -> bool {
    forall|b: int| 0 <= b < all.len() ==> (#[trigger] all[b])@.len() == all[0]@.len()
}

/// Why stacking the leaves of the iterations `all` fails with `e`: there
/// was no iteration, the leaf counts differ, or some column of leaves is
/// not one that stacking accepts.
pub open spec fn finish_error(all: Seq<Vec<Array>>, e: MinmlError) -> bool {
    ||| all.len() == 0 && (e matches MinmlError::Vmap(s) && s@ == "N=0"@)
    ||| all.len() >= 1 && !leaf_counts_agree(all) && (e matches MinmlError::Vmap(s) && s@
        == "leaf count varies across iterations"@)
    ||| all.len() >= 1 && leaf_counts_agree(all) && exists|l: int|
        0 <= l < all[0]@.len() && !column_stackable(#[trigger] column(leaf_models(all), l))
}

/// Stacks the leaves returned by the vmap iterations, leaf by leaf. Fails
/// when there were no iterations, when iterations returned different
/// numbers of leaves, and when stacking a leaf fails.
pub fn vmap_finish<H: FloatKernels>(all_leaves: &Vec<Vec<Array>>, host: &H) -> (r: Result<
    Vec<Array>,
    MinmlError,
>)
    ensures
        all_leaves@.len() == 0 ==> (r matches Err(MinmlError::Vmap(s)) && s@ == "N=0"@),
        all_leaves@.len() >= 1 && (exists|b: int|
            0 <= b < all_leaves@.len() && (#[trigger] all_leaves@[b])@.len()
                != all_leaves@[0]@.len()) ==> (r matches Err(MinmlError::Vmap(s)) && s@
            == "leaf count varies across iterations"@),
        r matches Ok(out) ==> all_leaves@.len() >= 1 && out@.len() == all_leaves@[0]@.len() && (
        forall|b: int|
            0 <= b < all_leaves@.len() ==> (#[trigger] all_leaves@[b])@.len()
                == all_leaves@[0]@.len()) && forall|l: int|
            0 <= l < out@.len() ==> (#[trigger] out@[l]).wf() && stacked_from(
                column(leaf_models(all_leaves@), l),
                out@[l]@,
            ) && stacked_on(*host, column(leaf_models(all_leaves@), l), out@[l]@),
        r matches Err(e) ==> finish_error(all_leaves@, e),
        all_leaves@.len() >= 1 && leaf_counts_agree(all_leaves@) && (forall|l: int|
            0 <= l < all_leaves@[0]@.len() ==> column_stackable(
                #[trigger] column(leaf_models(all_leaves@), l),
            )) ==> r is Ok,
{
    let mut c: usize = 0;
    while c < all_leaves.len()
        invariant
            c <= all_leaves@.len(),
            forall|b: int, l: int|
                0 <= b < c && 0 <= l < all_leaves@[b]@.len() ==> (#[trigger] all_leaves@[b]@[l]).wf(),
        decreases all_leaves@.len() - c,
    {
        crate::array::all_well_formed(all_leaves[c].as_slice());
        c = c + 1;
    }
    if all_leaves.len() == 0 {
        return Err(MinmlError::Vmap("N=0"));
    }
    let n_leaves = all_leaves[0].len();
    let mut b: usize = 0;
    while b < all_leaves.len()
        invariant
            b <= all_leaves@.len(),
            all_leaves@.len() >= 1,
            n_leaves == all_leaves@[0]@.len(),
            forall|c: int| 0 <= c < b ==> (#[trigger] all_leaves@[c])@.len() == n_leaves,
        decreases all_leaves@.len() - b,
    {
        if all_leaves[b].len() != n_leaves {
            proof {
                assert(all_leaves@[b as int]@.len() != all_leaves@[0]@.len());
            }
            return Err(MinmlError::Vmap("leaf count varies across iterations"));
        }
        b = b + 1;
    }
    let ghost lm = leaf_models(all_leaves@);
    let mut stacked: Vec<Array> = Vec::new();
    let mut l: usize = 0;
    while l < n_leaves
        invariant
            l <= n_leaves == all_leaves@[0]@.len(),
            all_leaves@.len() >= 1,
            lm == leaf_models(all_leaves@),
            forall|c: int| 0 <= c < all_leaves@.len() ==> (#[trigger] all_leaves@[c])@.len() == n_leaves,
            forall|c: int, q: int|
                0 <= c < all_leaves@.len() && 0 <= q < all_leaves@[c]@.len() ==> (
                #[trigger] all_leaves@[c]@[q]).wf(),
            stacked@.len() == l,
            forall|q: int|
                0 <= q < l ==> (#[trigger] stacked@[q]).wf() && stacked_from(column(lm, q), stacked@[q]@)
                    && stacked_on(*host, column(lm, q), stacked@[q]@),
        decreases n_leaves - l,
    {
        let mut parts: Vec<Array> = Vec::new();
        let mut c: usize = 0;
        while c < all_leaves.len()
            invariant
                c <= all_leaves@.len(),
                l < n_leaves,
                forall|d: int| 0 <= d < all_leaves@.len() ==> (#[trigger] all_leaves@[d])@.len() == n_leaves,
                forall|d: int, q: int|
                    0 <= d < all_leaves@.len() && 0 <= q < all_leaves@[d]@.len() ==> (
                    #[trigger] all_leaves@[d]@[q]).wf(),
                parts@.len() == c,
                forall|d: int| 0 <= d < c ==> (#[trigger] parts@[d])@ == all_leaves@[d]@[l as int]@,
                forall|d: int| 0 <= d < c ==> (#[trigger] parts@[d]).wf(),
            decreases all_leaves@.len() - c,
        {
            parts.push(all_leaves[c][l].clone());
            c = c + 1;
        }
        proof {
            assert(models(parts@) =~= column(lm, l as int));
            assert(leaf_counts_agree(all_leaves@));
        }
        let one = match stack(parts.as_slice(), host) {
            Ok(a) => a,
            Err(e) => {
                proof {
                    assert(!column_stackable(column(lm, l as int)));
                }
                return Err(e);
            },
        };
        stacked.push(one);
        l = l + 1;
    }
    Ok(stacked)
}

/// Loop-based vmap: runs `f` once per batch element with the batched
/// arguments sliced along axis 0, then stacks each returned leaf across
/// iterations. `f` gets the iteration index and the iteration's arguments;
/// the first error it returns ends the loop and is returned as it is. An
/// error is otherwise one of splitting an argument or of stacking.
pub fn vmap_apply<H: FloatKernels, F: FnMut(usize, &[Array]) -> Result<Vec<Array>, MinmlError>>(
    big_n: usize,
    args: &[Array],
    in_axes: &[i32],
    f: &mut F,
    host: &H,
) -> (r: Result<Vec<Array>, MinmlError>)
    requires
        forall|g: F, b: usize, a: &[Array]| call_requires(g, (b, a)),
    ensures
        args@.len() != in_axes@.len() ==> (r matches Err(MinmlError::Vmap(s)) && s@
            == "args/in_axes size mismatch"@),
        (exists|k: int|
            0 <= k < args@.len() && in_axes@[k] >= 0 && !batchable(
                #[trigger] args@[k]@,
                in_axes@[k],
                big_n,
            )) ==> r is Err,
        big_n == 0 ==> r is Err,
        args@.len() == in_axes@.len() ==> forall|i: int|
            0 <= i < args@.len() && #[trigger] first_unbatchable(args@, in_axes@, big_n, i) ==> (r matches Err(
                MinmlError::Vmap(s),
            ) && s@ == unbatchable_text(args@[i]@, in_axes@[i], big_n)),
        args@.len() == in_axes@.len() && vmap_args_ready(args@, in_axes@, big_n) && big_n == 0 ==> (r matches Err(
            MinmlError::Vmap(s),
        ) && s@ == "N=0"@),
        r matches Err(e) ==> {
            ||| prepare_error(*host, args@, in_axes@, big_n, e) && !(args@.len() == in_axes@.len()
                && vmap_args_ready(args@, in_axes@, big_n))
            ||| exists|calls: Seq<Vec<Array>>| #[trigger] vmap_failed_at::<H, F>(*host, args@, in_axes@, big_n, calls, e)
            ||| exists|calls: Seq<Vec<Array>>|
                #[trigger] vmap_calls::<H, F>(*host, args@, in_axes@, big_n, calls) && finish_error(calls, e)
        },
        r matches Ok(out) ==> big_n >= 1 && args@.len() == in_axes@.len() && exists|
            calls: Seq<Vec<Array>>,
        |
            #![trigger calls.len()]
            vmap_calls::<H, F>(*host, args@, in_axes@, big_n, calls) && leaf_counts_agree(calls) && out@.len()
                == calls[0]@.len() && forall|
                l: int,
            |
                0 <= l < out@.len() ==> (#[trigger] out@[l]).wf() && stacked_from(
                    column(leaf_models(calls), l),
                    out@[l]@,
                ) && stacked_on(*host, column(leaf_models(calls), l), out@[l]@),
{
    crate::array::all_well_formed(args);
    let per = match vmap_prepare(big_n, args, in_axes, host) {
        Ok(p) => p,
        Err(e) => {
            return Err(e);
        },
    };
    let mut all_leaves: Vec<Vec<Array>> = Vec::new();
    let mut b: usize = 0;
    while b < big_n
        invariant
            b <= big_n == per@.len(),
            args@.len() == in_axes@.len(),
            forall|c: int|
                0 <= c < big_n ==> vmap_row_ok(*host, args@, in_axes@, big_n, c, (#[trigger] per@[c])@),
            forall|k: int|
                0 <= k < args@.len() && in_axes@[k] >= 0 ==> batchable(
                    #[trigger] args@[k]@,
                    in_axes@[k],
                    big_n,
                ),
            forall|g: F, c: usize, a: &[Array]| call_requires(g, (c, a)),
            all_leaves@.len() == b,
            forall|c: int, l: int|
                0 <= c < all_leaves@.len() && 0 <= l < all_leaves@[c]@.len() ==> (
                #[trigger] all_leaves@[c]@[l]).wf(),
            forall|c: int|
                0 <= c < b ==> #[trigger] vmap_call::<H, F>(*host, args@, in_axes@, big_n, c, all_leaves@[c]),
        decreases big_n - b,
    {
        let ghost pre = *f;
        let row = per[b].as_slice();
        let res = f(b, row);
        let leaves = match res {
            Ok(v) => v,
            Err(e) => {
                proof {
                    assert(vmap_row_ok(*host, args@, in_axes@, big_n, b as int, row@));
                    assert(call_ensures(pre, (b, row), Err::<Vec<Array>, MinmlError>(e)));
                    assert(call_ensures(pre, ((b as int) as usize, row), Err::<Vec<Array>, MinmlError>(e)));
                    assert(vmap_call_failed::<H, F>(*host, args@, in_axes@, big_n, b as int, e));
                    assert(vmap_failed_at::<H, F>(*host, args@, in_axes@, big_n, all_leaves@, e));
                }
                return Err(e);
            },
        };
        crate::array::all_well_formed(leaves.as_slice());
        proof {
            assert(vmap_row_ok(*host, args@, in_axes@, big_n, b as int, row@));
            assert(call_ensures(pre, (b, row), Ok::<Vec<Array>, MinmlError>(leaves)));
        }
        let ghost before = all_leaves@;
        all_leaves.push(leaves);
        proof {
            assert forall|c: int| 0 <= c < b + 1 implies #[trigger] vmap_call::<H, F>(*host,
                args@,
                in_axes@,
                big_n,
                c,
                all_leaves@[c],
            ) by {
                if c < b {
                    assert(all_leaves@[c] == before[c]);
                } else {
                    assert(all_leaves@[c] == leaves);
                    assert(vmap_row_ok(*host, args@, in_axes@, big_n, c, row@) && call_ensures(
                        pre,
                        (c as usize, row),
                        Ok::<Vec<Array>, MinmlError>(all_leaves@[c]),
                    ));
                }
            }
        }
        b = b + 1;
    }
    proof {
        assert(vmap_calls::<H, F>(*host, args@, in_axes@, big_n, all_leaves@));
    }
    let out = match vmap_finish(&all_leaves, host) {
        Ok(o) => o,
        Err(e) => {
            return Err(e);
        },
    };
    proof {
        assert(big_n >= 1);
        let all = leaf_models(all_leaves@);
        assert(all[0].len() == all_leaves@[0]@.len());
        assert(vmap_calls::<H, F>(*host, args@, in_axes@, big_n, all_leaves@));
        assert(all_leaves@.len() == big_n);
    }
    Ok(out)
}

/// The expression `e` over the leaves `ins` spells out the graph `m`: an
/// input stands for the leaf it names, and an add or mul stands for a
/// Float32 node of that op with the target shape and device whose two
/// inputs the subexpressions spell out.
pub open spec fn represents(
    e: FusedExpr,
    ins: Seq<ArrayModel>,
    m: ArrayModel,
    shape: Seq<usize>,
    device: Device,
) -> bool
    decreases e,
{
    match e {
        FusedExpr::Input(k) => k < ins.len() && ins[k as int] == m,
        FusedExpr::Add(l, r) => {
            &&& m.node matches NodeModel::Lazy { prim: Prim::Add(_), inputs }
            &&& fused_node(m, shape, device)
            &&& represents(*l, ins, m.node->inputs[0], shape, device)
            &&& represents(*r, ins, m.node->inputs[1], shape, device)
        },
        FusedExpr::Mul(l, r) => {
            &&& m.node matches NodeModel::Lazy { prim: Prim::Mul(_), inputs }
            &&& fused_node(m, shape, device)
            &&& represents(*l, ins, m.node->inputs[0], shape, device)
            &&& represents(*r, ins, m.node->inputs[1], shape, device)
        },
    }
}

/// The left (or right) operand of an add or mul.
pub open spec fn operand(e: FusedExpr, left: bool) -> FusedExpr {
    match e {
        FusedExpr::Add(l, r) => if left {
            *l
        } else {
            *r
        },
        FusedExpr::Mul(l, r) => if left {
            *l
        } else {
            *r
        },
        FusedExpr::Input(_) => e,
    }
}

/// `m` is a lazy Float32 add or mul: the root of a chain that fusion
/// replaces with one node.
pub open spec fn fusable_root(m: ArrayModel) -> bool {
    match m.node {
        NodeModel::Lazy { prim, .. } => m.dtype == DType::Float32 && (prim is Add || prim is Mul),
        NodeModel::Evaluated(_) => false,
    }
}

/// A two-input Float32 node with the target shape and device.
pub open spec fn fused_node(m: ArrayModel, shape: Seq<usize>, device: Device) -> bool {
    &&& m.node->inputs.len() == 2
    &&& m.shape == shape
    &&& m.device == device
    &&& m.dtype == DType::Float32
}

/// `f` is what fusion makes of `a`: `a` itself, or a fresh fused node
/// with `a`'s shape, element type and device whose expression spells out
/// `a`'s graph over the node's inputs.
pub open spec fn fusion_of(a: ArrayModel, f: ArrayModel) -> bool {
    ||| f == a
    ||| {
        &&& f.shape == a.shape
        &&& f.size == a.size
        &&& f.dtype == a.dtype
        &&& f.device == a.device
        &&& f.batch_axis is None
        &&& f.node matches NodeModel::Lazy { prim: Prim::FusedElementwise(q), inputs }
        &&& represents(q.expr, inputs, a, a.shape, a.device)
    }
}

/// Leaves collected so far: well formed, all of the target size.
pub open spec fn leaves_ok(ins: Seq<Array>, size: nat) -> bool {
    forall|i: int| 0 <= i < ins.len() ==> (#[trigger] ins[i]).wf() && ins[i]@.size == size
}

proof fn lemma_represents_extend(
    e: FusedExpr,
    ins: Seq<ArrayModel>,
    more: Seq<ArrayModel>,
    m: ArrayModel,
    shape: Seq<usize>,
    device: Device,
)
    requires
        represents(e, ins, m, shape, device),
        ins.len() <= more.len(),
        more.take(ins.len() as int) == ins,
    ensures
        represents(e, more, m, shape, device),
        inputs_below(e, more.len()),
    decreases e,
{
    if e is Input {
        let k = e->Input_0;
        assert(more[k as int] == more.take(ins.len() as int)[k as int]);
    } else {
        assert(decreases_to!(e => operand(e, true)));
        assert(decreases_to!(e => operand(e, false)));
        lemma_represents_extend(operand(e, true), ins, more, m.node->inputs[0], shape, device);
        lemma_represents_extend(operand(e, false), ins, more, m.node->inputs[1], shape, device);
    }
}

/// The slot of `arr` among the collected leaves, adding it if it is not
/// there yet: two handles on one node with the same metadata (shape,
/// device, element type and batch axis) share a slot.
fn push_input(arr: &Array, inputs: &mut Vec<Array>, Ghost(size): Ghost<nat>) -> (e: FusedExpr)
    requires
        arr.wf(),
        arr@.size == size,
        leaves_ok(old(inputs)@, size),
    ensures
        leaves_ok(final(inputs)@, size),
        final(inputs)@.len() >= old(inputs)@.len(),
        models(final(inputs)@).take(old(inputs)@.len() as int) == models(old(inputs)@),
        e matches FusedExpr::Input(k) && k < final(inputs)@.len() && final(inputs)@[k as int]@ == arr@,
{
    let mut i: usize = 0;
    while i < inputs.len()
        invariant
            i <= inputs@.len(),
            inputs@ == old(inputs)@,
            leaves_ok(old(inputs)@, size),
        decreases inputs@.len() - i,
    {
        if inputs[i].same_node(arr) {
            assert(models(inputs@).take(inputs@.len() as int) =~= models(inputs@));
            return FusedExpr::Input(i);
        }
        i = i + 1;
    }
    let idx = inputs.len();
    inputs.push(arr.clone());
    assert(models(inputs@).take(old(inputs)@.len() as int) =~= models(old(inputs)@));
    FusedExpr::Input(idx)
}

/// Walks the graph of `arr`, pulling every contiguous chain of Float32
/// adds and muls of the target shape and device into one expression; any
/// other node becomes a leaf input.
fn collect(
    arr: &Array,
    target_shape: &[usize],
    target_device: Device,
    inputs: &mut Vec<Array>,
    Ghost(size): Ghost<nat>,
) -> (e: FusedExpr)
    requires
        arr.wf(),
        arr@.size == size,
        leaves_ok(old(inputs)@, size),
    ensures
        leaves_ok(final(inputs)@, size),
        final(inputs)@.len() >= old(inputs)@.len(),
        models(final(inputs)@).take(old(inputs)@.len() as int) == models(old(inputs)@),
        represents(e, models(final(inputs)@), arr@, target_shape@, target_device),
        fusable_root(arr@) && arr@.shape == target_shape@ && arr@.device == target_device ==> !(e is Input),
    decreases arr,
{
    if arr.holds_words() || !same_shape(arr.shape(), target_shape) || arr.device() != target_device
        || arr.dtype() != DType::Float32 {
        return push_input(arr, inputs, Ghost(size));
    }
    match arr.lazy_state() {
        None => push_input(arr, inputs, Ghost(size)),
        Some((prim, prim_inputs)) => {
            let is_add = match prim {
                Prim::Add(_) => true,
                Prim::Mul(_) => false,
                _ => {
                    return push_input(arr, inputs, Ghost(size));
                },
            };
            if prim_inputs.len() != 2 {
                return push_input(arr, inputs, Ghost(size));
            }
            proof {
                assert(well_formed(arr@));
                assert(models(prim_inputs@)[0] == prim_inputs@[0]@);
                assert(models(prim_inputs@)[1] == prim_inputs@[1]@);
            }
            let ghost before = models(inputs@);
            let lhs = collect(&prim_inputs[0], target_shape, target_device, inputs, Ghost(size));
            let ghost mid = models(inputs@);
            let rhs = collect(&prim_inputs[1], target_shape, target_device, inputs, Ghost(size));
            proof {
                lemma_represents_extend(
                    lhs,
                    mid,
                    models(inputs@),
                    prim_inputs@[0]@,
                    target_shape@,
                    target_device,
                );
                assert(models(inputs@).take(before.len() as int) =~= before) by {
                    assert(models(inputs@).take(mid.len() as int) == mid);
                    assert(mid.take(before.len() as int) == before);
                }
            }
            if is_add {
                FusedExpr::Add(Arc::new(lhs), Arc::new(rhs))
            } else {
                FusedExpr::Mul(Arc::new(lhs), Arc::new(rhs))
            }
        },
    }
}

/// Fuses the add/mul chains of `arr`'s graph into one node. An array whose
/// root is not a lazy Float32 add or mul comes back unchanged.
pub fn fuse_array(arr: &Array) -> (r: Array)
    ensures
        r.wf(),
        fusion_of(arr@, r@),
        !fusable_root(arr@) ==> r@ == arr@,
        fusable_root(arr@) ==> r@.node matches NodeModel::Lazy { prim: Prim::FusedElementwise(_), .. },
{
    proof {
        use_type_invariant(arr);
        arr.lemma_wf();
    }
    if arr.holds_words() || arr.dtype() != DType::Float32 {
        return arr.clone();
    }
    let mut inputs: Vec<Array> = Vec::new();
    let ghost size = arr@.size as nat;
    let expr = collect(arr, arr.shape(), arr.device(), &mut inputs, Ghost(size));
    if let FusedExpr::Input(_) = expr {
        return arr.clone();
    }
    proof {
        assert(models(inputs@).take(models(inputs@).len() as int) =~= models(inputs@));
        lemma_represents_extend(expr, models(inputs@), models(inputs@), arr@, arr@.shape, arr@.device);
        assert forall|i: int| 0 <= i < models(inputs@).len() implies (
        #[trigger] models(inputs@)[i]).size == prod(arr@.shape) by {
            assert(inputs@[i]@.size == size);
        }
    }
    let shape = arr.shape_vec();
    let r = Array::lazy(
        shape,
        arr.dtype(),
        arr.device(),
        Prim::FusedElementwise(FusedElementwisePrim { expr }),
        inputs,
    );
    r
}

/// Traces `f` once on `args` and fuses the add/mul chains of each output.
pub fn jit<F: FnMut(&[Array]) -> Result<Vec<Array>, MinmlError>>(args: &[Array], f: &mut F) -> (r:
    Result<Vec<Array>, MinmlError>)
    requires
        call_requires(*old(f), (args,)),
    ensures
        r matches Ok(v) ==> exists|outs: Vec<Array>|
            #[trigger] call_ensures(*old(f), (args,), Ok::<Vec<Array>, MinmlError>(outs))
                && outs@.len() == v@.len() && forall|i: int|
                0 <= i < v@.len() ==> fusion_of(outs@[i]@, #[trigger] v@[i]@) && v@[i].wf() && (
                !fusable_root(outs@[i]@) ==> v@[i]@ == outs@[i]@) && (fusable_root(outs@[i]@)
                ==> v@[i]@.node matches NodeModel::Lazy { prim: Prim::FusedElementwise(_), .. }),
        r matches Err(e) ==> call_ensures(*old(f), (args,), Err::<Vec<Array>, MinmlError>(e)),
{
    let ghost pre = *f;
    let res = f(args);
    let outputs = match res {
        Ok(o) => o,
        Err(e) => {
            return Err(e);
        },
    };
    let mut fused: Vec<Array> = Vec::new();
    let mut i: usize = 0;
    while i < outputs.len()
        invariant
            i <= outputs@.len(),
            fused@.len() == i,
            forall|k: int|
                0 <= k < i ==> fusion_of(outputs@[k]@, #[trigger] fused@[k]@) && fused@[k].wf() && (
                !fusable_root(outputs@[k]@) ==> fused@[k]@ == outputs@[k]@) && (fusable_root(
                outputs@[k]@) ==> fused@[k]@.node matches NodeModel::Lazy {
                prim: Prim::FusedElementwise(_),
                ..
            }),
        decreases outputs@.len() - i,
    {
        fused.push(fuse_array(&outputs[i]));
        i = i + 1;
    }
    proof {
        assert(call_ensures(pre, (args,), Ok::<Vec<Array>, MinmlError>(outputs)));
    }
    Ok(fused)
}

/// The first `k` rows laid end to end are the first `k * per` words.
proof fn lemma_concat_rows(w: Seq<u32>, per: nat, k: nat)
    requires
        k * per <= w.len(),
    ensures
        concat_all(Seq::new(k, |i: int| row_words(w, per, i))) == w.take((k * per) as int),
    decreases k,
{
    let rows = Seq::new(k, |i: int| row_words(w, per, i));
    if k == 0 {
        assert(k * per == 0) by (nonlinear_arith)
            requires
                k == 0,
        ;
        assert(w.take(0) =~= Seq::<u32>::empty());
    } else {
        assert((k - 1) * per + per == k * per) by (nonlinear_arith);
        assert((k - 1) * per <= k * per) by (nonlinear_arith);
        lemma_concat_rows(w, per, (k - 1) as nat);
        assert(rows.drop_last() =~= Seq::new((k - 1) as nat, |i: int| row_words(w, per, i)));
        assert(rows.last() == row_words(w, per, k - 1));
        assert(w.take((k - 1) * per) + row_words(w, per, k - 1) =~= w.take((k * per) as int));
    }
}

/// Slicing an array along axis 0 and stacking the slices back gives the
/// array again: the stack of the sub-arrays of an array of shape `shape`
/// holding `w` (with a non-zero first dimension) has shape `shape` and
/// holds `w`.
pub proof fn lemma_slice_stack_roundtrip(shape: Seq<usize>, dtype: DType, w: Seq<u32>)
    requires
        shape.len() >= 1,
        shape[0] >= 1,
        shape_holdable(shape),
        w.len() == prod(shape),
    ensures
        stacked_from(slice_models(shape, dtype, w), evaluated_model(shape, dtype, Device::Cpu, w)),
{
    let n = shape[0] as nat;
    let tail = shape.skip(1);
    let per = prod(tail);
    let ms = slice_models(shape, dtype, w);
    lemma_fits_tail(shape);
    crate::array::lemma_prod_first(shape);
    assert(per <= usize::MAX);
    let ws = Seq::new(n, |i: int| row_words(w, per, i));
    assert forall|i: int| 0 <= i < ms.len() implies part_matches(ms[0], #[trigger] ms[i]) by {}
    assert forall|i: int| 0 <= i < ws.len() implies evaluates_to(#[trigger] ms[i], ws[i]) by {
        assert(i * per + per <= n * per) by (nonlinear_arith)
            requires
                0 <= i < n,
        ;
        assert(0 <= i * per) by (nonlinear_arith)
            requires
                0 <= i,
        ;
        assert(ws[i].len() == per);
        assert(value(ms[i]) == Some(ws[i]));
    }
    lemma_concat_rows(w, per, n);
    assert(w.take((n * per) as int) =~= w);
    assert(stacked_shape(ms.len(), ms[0].shape) =~= shape);
}

/// Stacking the slices of an evaluated graph gives its value back: when
/// `a` evaluates to `w` with the float kernels `h`, the stack of the
/// sub-arrays of `w` (what `slice_axis0` returns), each read with the same
/// kernels, is the array of `a`'s shape holding `w`.
pub proof fn lemma_stack_of_slices<H: FloatKernels>(h: H, a: ArrayModel, w: Seq<u32>, r: ArrayModel)
    requires
        a.shape.len() >= 1,
        a.shape[0] >= 1,
        shape_holdable(a.shape),
        w.len() == prod(a.shape),
        value_on(h, a) == Some(w),
        stacked_on(h, slice_models(a.shape, a.dtype, w), r),
    ensures
        r == evaluated_model(a.shape, a.dtype, Device::Cpu, w),
{
    let shape = a.shape;
    let n = shape[0] as nat;
    let tail = shape.skip(1);
    let per = prod(tail);
    let ms = slice_models(shape, a.dtype, w);
    lemma_fits_tail(shape);
    crate::array::lemma_prod_first(shape);
    let rows = Seq::new(n, |i: int| row_words(w, per, i));
    let ws = choose|ws: Seq<Seq<u32>>|
        ws.len() == ms.len() && (forall|i: int| 0 <= i < ws.len() ==> value_on(h, #[trigger] ms[i]) == Some(ws[i]))
            && r == evaluated_model(stacked_shape(ms.len(), ms[0].shape), ms[0].dtype, Device::Cpu, concat_all(ws));
    assert forall|i: int| 0 <= i < ws.len() implies #[trigger] ws[i] == rows[i] by {
        assert(value_on(h, ms[i]) == Some(ws[i]));
    }
    assert(ws =~= rows);
    lemma_concat_rows(w, per, n);
    assert(w.take((n * per) as int) =~= w);
    assert(stacked_shape(ms.len(), ms[0].shape) =~= shape);
}

} // verus!
