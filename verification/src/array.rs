// Array: the user-facing tensor.
//
// Either evaluated (a host buffer of 32-bit words) or lazy (an op plus
// its input Arrays). Storage is contiguous row-major; both element types
// are four bytes wide. `batch_axis` is set transiently by vmap. A lazy
// node whose graph needs no float kernel keeps, behind a lock, the words it
// was evaluated to, so every handle that shares the node (its clones, and
// the graphs it is an input of) reads them once any of them has evaluated
// it. Words that float kernels computed depend on the kernels a caller hands
// in, and are kept by the evaluated handle alone.
use crate::cpu::backend::CpuBuffer;
use crate::cpu::kernels::{gather_spec, indices_in_range, ones_spec};
use crate::cpu::random::{categorical_draw, categorical_pick, class_of, randint_spec, tagged_draw, TAG_CATEGORICAL_U, TAG_DIRICHLET};
use crate::device::{Device, backend_name};
use crate::dtype::DType;
use crate::error::MinmlError;
use crate::ops::{Prim, is_float_prim, node_ok};
use crate::primitive::{FloatKernels, FloatOp};
use crate::shape::{prod, product, shape_fits};
use std::sync::Arc;
use vstd::prelude::*;
use vstd::rwlock::{RwLock, RwLockPredicate};

verus! {

pub struct Array {
    shape: Vec<usize>,
    size: usize,
    device: Device,
    dtype: DType,
    batch_axis: Option<i32>,
    inner: Arc<ArrayInner>,
}

enum ArrayInner {
    Evaluated(Vec<u32>),
    Lazy {
        prim: Prim,
        inputs: Vec<Array>,
        integer_only: bool,
        cache: RwLock<Option<Vec<u32>>, CachedWords>,
    },
}

/// What the cache of a lazy node may hold: nothing yet, or, for a node
/// whose graph needs no float kernel, its value. (What a float kernel
/// answers depends on the kernels a caller hands in, so those words are
/// not shared.)
pub struct CachedWords {
    pub node: Ghost<ArrayModel>,
}

impl RwLockPredicate<Option<Vec<u32>>> for CachedWords {
    open spec fn inv(self, v: Option<Vec<u32>>) -> bool {
        v matches Some(w) ==> float_free(self.node@) && evaluates_to(self.node@, w@)
    }
}

/// The node of an array, apart from the vmap batch axis that a handle
/// carries.
pub open spec fn node_key(m: ArrayModel) -> ArrayModel {
    ArrayModel { batch_axis: None, ..m }
}

/// The batch axis plays no part in what an array evaluates to.
pub proof fn lemma_key_evaluates(m: ArrayModel, w: Seq<u32>)
    ensures
        evaluates_to(node_key(m), w) == evaluates_to(m, w),
{
    assert(float_free(node_key(m)) == float_free(m));
    assert(value(node_key(m)) == value(m));
}

/// The mathematical value of an Array: its metadata and either its
/// stored words or its op and the values of its inputs.
pub ghost struct ArrayModel {
    pub shape: Seq<usize>,
    pub size: usize,
    pub device: Device,
    pub dtype: DType,
    pub batch_axis: Option<i32>,
    pub node: NodeModel,
}

pub ghost enum NodeModel {
    Evaluated(Seq<u32>),
    Lazy { prim: Prim, inputs: Seq<ArrayModel> },
}

/// A fresh lazy node.
pub open spec fn lazy_model(
    shape: Seq<usize>,
    dtype: DType,
    device: Device,
    prim: Prim,
    inputs: Seq<ArrayModel>,
) -> ArrayModel {
    ArrayModel {
        shape,
        size: prod(shape) as usize,
        device,
        dtype,
        batch_axis: None,
        node: NodeModel::Lazy { prim, inputs },
    }
}

/// A fresh evaluated array.
pub open spec fn evaluated_model(
    shape: Seq<usize>,
    dtype: DType,
    device: Device,
    data: Seq<u32>,
) -> ArrayModel {
    ArrayModel {
        shape,
        size: prod(shape) as usize,
        device,
        dtype,
        batch_axis: None,
        node: NodeModel::Evaluated(data),
    }
}

/// The same array, now holding `data`.
pub open spec fn with_data(m: ArrayModel, data: Seq<u32>) -> ArrayModel {
    ArrayModel { node: NodeModel::Evaluated(data), ..m }
}

/// Every array satisfies: its shape multiplies out without overflow to
/// its size, whose byte count fits a `usize`; an evaluated array holds
/// exactly `size` words; a lazy node's kernel finds the operands it needs,
/// and its inputs are well formed in turn.
pub open spec fn well_formed(m: ArrayModel) -> bool
    decreases m,
{
    &&& shape_fits(m.shape)
    &&& m.size == prod(m.shape)
    &&& m.size * 4 <= usize::MAX
    &&& match m.node {
        NodeModel::Evaluated(d) => d.len() == m.size,
        NodeModel::Lazy { prim, inputs } => {
            &&& node_ok(prim, inputs, m.shape, m.dtype)
            &&& forall|i: int| 0 <= i < inputs.len() ==> well_formed(#[trigger] inputs[i])
        },
    }
}

/// No node of the graph needs a floating-point kernel.
pub open spec fn float_free(m: ArrayModel) -> bool
    decreases m,
{
    match m.node {
        NodeModel::Evaluated(_) => true,
        NodeModel::Lazy { prim, inputs } => {
            &&& !is_float_prim(prim)
            &&& forall|i: int| 0 <= i < inputs.len() ==> float_free(#[trigger] inputs[i])
        },
    }
}

/// The words a float-free node computes from the words of its inputs, or
/// `None` when its kernel fails (a device without the kernel, an empty
/// `randint` range, a `gather` index out of bounds).
pub open spec fn node_value(
    prim: Prim,
    inputs: Seq<ArrayModel>,
    vals: Seq<Seq<u32>>,
    m: ArrayModel,
) -> Option<Seq<u32>> {
    if m.device != Device::Cpu {
        None
    } else {
        match prim {
            Prim::Ones(_) => Some(ones_spec(m.dtype, m.size as nat)),
            Prim::RandInt(q) => if q.low < q.high {
                Some(randint_spec(q.k0, q.k1, q.low, q.high, m.size as nat))
            } else {
                None
            },
            Prim::Gather(_) => {
                let rows = inputs[0].shape[0] as nat;
                let trail = prod(inputs[0].shape.skip(1));
                if indices_in_range(vals[1], rows) {
                    Some(gather_spec(vals[0], trail, vals[1], vals[1].len()))
                } else {
                    None
                }
            },
            _ => None,
        }
    }
}

/// `e` is what the kernel of a float-free node gives when it fails. The
/// output is allocated on its device first, and only the CPU backend is
/// built, so a node on another device fails there; on the CPU an empty
/// `randint` range and a `gather` index out of range fail.
pub open spec fn node_error(
    prim: Prim,
    inputs: Seq<ArrayModel>,
    vals: Seq<Seq<u32>>,
    m: ArrayModel,
    e: MinmlError,
) -> bool {
    if m.device != Device::Cpu {
        e matches MinmlError::BackendNotBuilt(s) && s@ == backend_name(m.device)
    } else {
        match prim {
            Prim::RandInt(_) => e matches MinmlError::Other(s) && s@ == "randint: high <= low"@,
            Prim::Gather(_) => e == MinmlError::GatherOob,
            _ => false,
        }
    }
}

/// `e` is the error that evaluating the float-free graph `m` gives: the
/// inputs are evaluated first, from the last to the first, and the first
/// of them that fails decides; when none fails, the node's own kernel does.
pub open spec fn eval_error(m: ArrayModel, e: MinmlError) -> bool
    decreases m, 0nat,
{
    match m.node {
        NodeModel::Evaluated(_) => false,
        NodeModel::Lazy { prim, inputs } => {
            ||| inputs_error_from(inputs, 0, e)
            ||| (input_values(inputs, inputs.len()) matches Some(vals) && node_error(
                prim,
                inputs,
                vals,
                m,
                e,
            ))
        },
    }
}

/// Every input from `i` on evaluates.
pub open spec fn values_from(ins: Seq<ArrayModel>, i: int) -> bool {
    forall|j: int| i <= j < ins.len() ==> #[trigger] value(ins[j]) is Some
}

/// `e` is the error of the first failing input among those from `i` on,
/// evaluated from the last to the first.
pub open spec fn inputs_error_from(ins: Seq<ArrayModel>, i: nat, e: MinmlError) -> bool
    decreases ins, ins.len() - i,
{
    if i >= ins.len() {
        false
    } else {
        ||| inputs_error_from(ins, i + 1, e)
        ||| (values_from(ins, i + 1 as int) && eval_error(ins[i as int], e))
    }
}

/// An error among the inputs from `i` on is the error among all inputs from
/// any earlier index on.
proof fn lemma_inputs_error_down(ins: Seq<ArrayModel>, i: nat, e: MinmlError)
    requires
        inputs_error_from(ins, i, e),
    ensures
        inputs_error_from(ins, 0, e),
    decreases i,
{
    if i > 0 {
        assert(inputs_error_from(ins, (i - 1) as nat, e));
        lemma_inputs_error_down(ins, (i - 1) as nat, e);
    }
}

/// Once input `i` fails, the inputs up to and including it fail as a whole.
proof fn lemma_input_values_fail(ins: Seq<ArrayModel>, i: int)
    requires
        0 <= i < ins.len(),
        value(ins[i]) is None,
    ensures
        input_values(ins, (i + 1) as nat) is None,
{
}

/// When every input evaluates, the inputs as a whole give their values.
proof fn lemma_input_values_all(ins: Seq<ArrayModel>, vs: Seq<Seq<u32>>, n: nat)
    requires
        n <= ins.len(),
        n <= vs.len(),
        forall|j: int| 0 <= j < n ==> value(#[trigger] ins[j]) == Some(vs[j]),
    ensures
        input_values(ins, n) == Some(vs.take(n as int)),
    decreases n,
{
    if n > 0 {
        lemma_input_values_all(ins, vs, (n - 1) as nat);
        assert(vs.take(n as int) =~= vs.take(n - 1).push(vs[n - 1]));
    }
}

/// Answer of the float kernels `h` for draw `b` of a categorical node keyed
/// by `(k0, k1)` whose class weights hold the words `vals` over `k` classes.
pub open spec fn draw_answer<H: FloatKernels>(
    h: H,
    k0: u32,
    k1: u32,
    vals: Seq<Seq<u32>>,
    k: nat,
    b: int,
) -> Option<Seq<u32>> {
    h.answer(FloatOp::CategoricalBelow { draw: categorical_draw(k0, k1, b) }, vals, k)
}

/// The `n` draws of a categorical node: draw `b` is the class picked by the
/// kernels' answer for it; `None` when an answer is missing or does not
/// hold one flag per class.
pub open spec fn categorical_value<H: FloatKernels>(
    h: H,
    k0: u32,
    k1: u32,
    vals: Seq<Seq<u32>>,
    k: nat,
    n: nat,
) -> Option<Seq<u32>> {
    if forall|b: int|
        0 <= b < n ==> (#[trigger] draw_answer(h, k0, k1, vals, k, b) matches Some(f) && f.len() == k) {
        Some(Seq::new(n, |b: int| class_of(draw_answer(h, k0, k1, vals, k, b)->0) as u32))
    } else {
        None
    }
}

/// The words a node computes from the words `vals` of its inputs, its
/// float kernels answering as `h` does; `None` when the node fails: on a
/// device without a backend, when a float kernel's answer is missing or
/// has the wrong length, and where `node_value` fails.
pub open spec fn node_value_on<H: FloatKernels>(
    h: H,
    prim: Prim,
    inputs: Seq<ArrayModel>,
    vals: Seq<Seq<u32>>,
    m: ArrayModel,
) -> Option<Seq<u32>> {
    if m.device != Device::Cpu || !is_float_prim(prim) {
        node_value(prim, inputs, vals, m)
    } else {
        match prim {
            Prim::CategoricalSample(q) => {
                let k = inputs[0].shape[0] as nat;
                if k == 0 || m.size == 0 {
                    None
                } else {
                    categorical_value(h, q.k0, q.k1, vals, k, m.size as nat)
                }
            },
            _ => match h.answer(float_request_spec(prim, inputs), vals, m.size as nat) {
                Some(w) => if w.len() == m.size {
                    Some(w)
                } else {
                    None
                },
                None => None,
            },
        }
    }
}

/// The value of a graph, its float kernels answering as `h` does: its
/// words, or `None` when some node fails.
pub open spec fn value_on<H: FloatKernels>(h: H, m: ArrayModel) -> Option<Seq<u32>>
    decreases m, 0nat,
{
    match m.node {
        NodeModel::Evaluated(d) => Some(d),
        NodeModel::Lazy { prim, inputs } => match input_values_on(h, inputs, inputs.len()) {
            Some(vals) => node_value_on(h, prim, inputs, vals, m),
            None => None,
        },
    }
}

/// The values of the first `n` inputs, or `None` when one of them fails.
pub open spec fn input_values_on<H: FloatKernels>(h: H, ins: Seq<ArrayModel>, n: nat) -> Option<
    Seq<Seq<u32>>,
>
    decreases ins, n,
{
    if n == 0 || n > ins.len() {
        Some(Seq::empty())
    } else {
        match input_values_on(h, ins, (n - 1) as nat) {
            Some(prev) => match value_on(h, ins[n - 1]) {
                Some(v) => Some(prev.push(v)),
                None => None,
            },
            None => None,
        }
    }
}

/// `e` is an error that a node can give once its inputs hold `vals`: on a
/// device without a backend, the backend's error; on the CPU, what
/// `node_error` says of an integer node, for a categorical node without
/// classes the zero-weight error, and for any other float node whatever
/// its kernel reports, or the error for an answer of the wrong length.
pub open spec fn node_error_on<H: FloatKernels>(
    h: H,
    prim: Prim,
    inputs: Seq<ArrayModel>,
    vals: Seq<Seq<u32>>,
    m: ArrayModel,
    e: MinmlError,
) -> bool {
    if m.device != Device::Cpu || !is_float_prim(prim) {
        node_error(prim, inputs, vals, m, e)
    } else {
        match prim {
            Prim::CategoricalSample(_) => inputs[0].shape[0] == 0 ==> (e matches MinmlError::Other(s)
                && s@ == "categorical: probs sum to 0"@),
            _ => true,
        }
    }
}

/// `e` is an error that evaluating `m` can give, its float kernels
/// answering as `h` does: the inputs are evaluated from the last to the
/// first and the first that fails decides; when none fails, the node does.
pub open spec fn eval_error_on<H: FloatKernels>(h: H, m: ArrayModel, e: MinmlError) -> bool
    decreases m, 0nat,
{
    match m.node {
        NodeModel::Evaluated(_) => false,
        NodeModel::Lazy { prim, inputs } => {
            ||| inputs_error_from_on(h, inputs, 0, e)
            ||| (input_values_on(h, inputs, inputs.len()) matches Some(vals) && node_error_on(
                h,
                prim,
                inputs,
                vals,
                m,
                e,
            ))
        },
    }
}

/// Every input from `i` on evaluates.
pub open spec fn values_from_on<H: FloatKernels>(h: H, ins: Seq<ArrayModel>, i: int) -> bool {
    forall|j: int| i <= j < ins.len() ==> #[trigger] value_on(h, ins[j]) is Some
}

/// `e` is the error of the first failing input among those from `i` on,
/// evaluated from the last to the first.
pub open spec fn inputs_error_from_on<H: FloatKernels>(
    h: H,
    ins: Seq<ArrayModel>,
    i: nat,
    e: MinmlError,
) -> bool
    decreases ins, ins.len() - i,
{
    if i >= ins.len() {
        false
    } else {
        ||| inputs_error_from_on(h, ins, i + 1, e)
        ||| (values_from_on(h, ins, i + 1 as int) && eval_error_on(h, ins[i as int], e))
    }
}

proof fn lemma_inputs_error_down_on<H: FloatKernels>(h: H, ins: Seq<ArrayModel>, i: nat, e: MinmlError)
    requires
        inputs_error_from_on(h, ins, i, e),
    ensures
        inputs_error_from_on(h, ins, 0, e),
    decreases i,
{
    if i > 0 {
        assert(inputs_error_from_on(h, ins, (i - 1) as nat, e));
        lemma_inputs_error_down_on(h, ins, (i - 1) as nat, e);
    }
}

proof fn lemma_input_values_all_on<H: FloatKernels>(
    h: H,
    ins: Seq<ArrayModel>,
    vs: Seq<Seq<u32>>,
    n: nat,
)
    requires
        n <= ins.len(),
        n <= vs.len(),
        forall|j: int| 0 <= j < n ==> value_on(h, #[trigger] ins[j]) == Some(vs[j]),
    ensures
        input_values_on(h, ins, n) == Some(vs.take(n as int)),
    decreases n,
{
    if n > 0 {
        lemma_input_values_all_on(h, ins, vs, (n - 1) as nat);
        assert(vs.take(n as int) =~= vs.take(n - 1).push(vs[n - 1]));
    }
}

/// A graph without float nodes has the same value whatever the float
/// kernels answer.
pub proof fn lemma_value_on_float_free<H: FloatKernels>(h: H, m: ArrayModel)
    requires
        float_free(m),
    ensures
        value_on(h, m) == value(m),
    decreases m, 0nat,
{
    match m.node {
        NodeModel::Evaluated(_) => {},
        NodeModel::Lazy { prim, inputs } => {
            lemma_input_values_on_float_free(h, inputs, inputs.len());
        },
    }
}

proof fn lemma_input_values_on_float_free<H: FloatKernels>(h: H, ins: Seq<ArrayModel>, n: nat)
    requires
        forall|j: int| 0 <= j < ins.len() ==> float_free(#[trigger] ins[j]),
    ensures
        input_values_on(h, ins, n) == input_values(ins, n),
    decreases ins, n,
{
    if n == 0 || n > ins.len() {
    } else {
        lemma_input_values_on_float_free(h, ins, (n - 1) as nat);
        lemma_value_on_float_free(h, ins[n - 1]);
    }
}

/// The contents of a sequence of word vectors.
pub open spec fn views_of(vs: Seq<Vec<u32>>) -> Seq<Seq<u32>> {
    vs.map_values(|v: Vec<u32>| v@)
}

/// The value of a float-free graph: its words, or `None` when some node fails.
pub open spec fn value(m: ArrayModel) -> Option<Seq<u32>>
    decreases m, 0nat,
{
    match m.node {
        NodeModel::Evaluated(d) => Some(d),
        NodeModel::Lazy { prim, inputs } => match input_values(inputs, inputs.len()) {
            Some(vals) => node_value(prim, inputs, vals, m),
            None => None,
        },
    }
}

/// The values of the first `n` inputs, or `None` when one of them fails.
pub open spec fn input_values(ins: Seq<ArrayModel>, n: nat) -> Option<Seq<Seq<u32>>>
    decreases ins, n,
{
    if n == 0 || n > ins.len() {
        Some(Seq::empty())
    } else {
        match input_values(ins, (n - 1) as nat) {
            Some(prev) => match value(ins[n - 1]) {
                Some(v) => Some(prev.push(v)),
                None => None,
            },
            None => None,
        }
    }
}

/// Once an input fails, the inputs as a whole fail.
pub proof fn lemma_input_values_none(ins: Seq<ArrayModel>, n: nat, k: nat)
    requires
        n <= k <= ins.len(),
        input_values(ins, n) is None,
    ensures
        input_values(ins, k) is None,
    decreases k - n,
{
    if k > n {
        lemma_input_values_none(ins, n, (k - 1) as nat);
    }
}

impl Array {
    closed spec fn model(&self) -> ArrayModel
        decreases self,
    {
        ArrayModel {
            shape: self.shape@,
            size: self.size,
            device: self.device,
            dtype: self.dtype,
            batch_axis: self.batch_axis,
            node: match *self.inner {
                ArrayInner::Evaluated(d) => NodeModel::Evaluated(d@),
                ArrayInner::Lazy { prim, inputs, .. } => NodeModel::Lazy {
                    prim,
                    inputs: Seq::new(
                        inputs.len() as nat,
                        |i: int|
                            if 0 <= i < inputs.len() {
                                inputs@[i].model()
                            } else {
                                arbitrary()
                            },
                    ),
                },
            },
        }
    }
}

impl Array {
    /// Every array is well formed, and the cache of a lazy node speaks of
    /// that node.
    #[verifier::type_invariant]
    pub closed spec fn cache_of_node(&self) -> bool {
        match *self.inner {
            ArrayInner::Evaluated(d) => {
                &&& shape_fits(self.shape@)
                &&& self.size == prod(self.shape@)
                &&& self.size * 4 <= usize::MAX
                &&& d@.len() == self.size
            },
            ArrayInner::Lazy { prim, inputs, integer_only, cache } => {
                &&& integer_only == float_free(cache.pred().node@)
                &&& cache.pred().node@ == (ArrayModel {
                    shape: self.shape@,
                    size: self.size,
                    device: self.device,
                    dtype: self.dtype,
                    batch_axis: None,
                    node: NodeModel::Lazy { prim, inputs: models(inputs@) },
                })
                &&& well_formed(cache.pred().node@)
            },
        }
    }

    /// What the type invariant says of an array makes it well formed.
    pub proof fn lemma_wf(&self)
        requires
            self.cache_of_node(),
        ensures
            self.wf(),
    {
        self.lemma_model_inputs();
        match *self.inner {
            ArrayInner::Lazy { cache, .. } => {
                assert(node_key(self@) == cache.pred().node@);
                assert(well_formed(node_key(self@)) == well_formed(self@));
            },
            _ => {},
        }
    }
}

/// Whether evaluating a node of this op runs a float kernel.
fn needs_float_kernel(prim: &Prim) -> (r: bool)
    ensures
        r == is_float_prim(*prim),
{
    match prim {
        Prim::Add(_) | Prim::Mul(_) | Prim::Dot(_) | Prim::DirichletSample(_)
        | Prim::CategoricalSample(_) | Prim::FusedElementwise(_) => true,
        _ => false,
    }
}

/// Every array of a slice is well formed.
pub(crate) fn all_well_formed(arrays: &[Array])
    ensures
        forall|i: int| 0 <= i < arrays@.len() ==> (#[trigger] arrays@[i]).wf(),
{
    let mut i: usize = 0;
    while i < arrays.len()
        invariant
            i <= arrays@.len(),
            forall|j: int| 0 <= j < i ==> (#[trigger] arrays@[j]).wf(),
        decreases arrays@.len() - i,
    {
        let a = &arrays[i];
        proof {
            use_type_invariant(a);
            a.lemma_wf();
        }
        i = i + 1;
    }
}

impl View for Array {
    type V = ArrayModel;

    closed spec fn view(&self) -> ArrayModel {
        self.model()
    }
}

/// The values of a sequence of arrays.
pub open spec fn models(s: Seq<Array>) -> Seq<ArrayModel> {
    s.map_values(|a: Array| a@)
}

/// Two shapes hold the same dimensions.
pub fn same_shape(a: &[usize], b: &[usize]) -> (r: bool)
    ensures
        r == (a@ == b@),
{
    if a.len() != b.len() {
        return false;
    }
    let mut i: usize = 0;
    while i < a.len()
        invariant
            i <= a@.len() == b@.len(),
            forall|k: int| 0 <= k < i ==> a@[k] == b@[k],
        decreases a@.len() - i,
    {
        if a[i] != b[i] {
            return false;
        }
        i = i + 1;
    }
    assert(a@ =~= b@);
    true
}

/// Whether two handles share one node, by `Arc::ptr_eq`: it is true only
/// when both point to the same allocation, so the node they hold is one and
/// the same. Nothing is claimed when it is false.
#[verifier::external_body]
fn same_allocation(a: &Arc<ArrayInner>, b: &Arc<ArrayInner>) -> (r: bool)
    ensures
        r ==> **a == **b,
{
    Arc::ptr_eq(a, b)
}

impl Array {
    pub open spec fn wf(&self) -> bool {
        well_formed(self@)
    }

    proof fn lemma_model_inputs(&self)
        ensures
            match *self.inner {
                ArrayInner::Lazy { prim, inputs, .. } => self@.node == (NodeModel::Lazy {
                    prim,
                    inputs: models(inputs@),
                }),
                ArrayInner::Evaluated(d) => self@.node == NodeModel::Evaluated(d@),
            },
    {
        match *self.inner {
            ArrayInner::Lazy { prim, inputs, .. } => {
                assert(self.model().node->inputs =~= models(inputs@));
            },
            ArrayInner::Evaluated(d) => {},
        }
    }

    proof fn lemma_inputs_decrease(&self)
        ensures
            match *self.inner {
                ArrayInner::Lazy { prim, inputs, .. } => forall|j: int|
                    0 <= j < inputs@.len() ==> decreases_to!(*self => #[trigger] inputs@[j]),
                _ => true,
            },
    {
        match *self.inner {
            ArrayInner::Lazy { prim, inputs, .. } => {
                broadcast use vstd::std_specs::vec::group_vec_axioms;

                assert forall|j: int| 0 <= j < inputs@.len() implies decreases_to!(*self => #[trigger] inputs@[j]) by {
                    assert(decreases_to!(*self => self.inner));
                    assert(decreases_to!(inputs => inputs@));
                    assert(decreases_to!(inputs => inputs@[j]));
                }
            },
            _ => {},
        }
    }

    fn new_evaluated(shape: Vec<usize>, dtype: DType, device: Device, data: Vec<u32>) -> (r: Array)
        requires
            shape_fits(shape@),
            data@.len() == prod(shape@),
            prod(shape@) * 4 <= usize::MAX,
        ensures
            r@ == evaluated_model(shape@, dtype, device, data@),
            r.wf(),
    {
        let size = product(shape.as_slice());
        let r = Array {
            shape,
            size,
            device,
            dtype,
            batch_axis: None,
            inner: Arc::new(ArrayInner::Evaluated(data)),
        };
        proof {
            r.lemma_model_inputs();
        }
        r
    }

    /// An evaluated array holding `data` (one word per element) with the
    /// given shape and element type. Fails when the data does not have
    /// one word per element, and for devices whose backend is not built.
    pub fn from_words_with_shape(
        data: Vec<u32>,
        shape: Vec<usize>,
        dtype: DType,
        device: Device,
    ) -> (r: Result<Array, MinmlError>)
        requires
            shape_fits(shape@),
            data@.len() == prod(shape@) ==> prod(shape@) * 4 <= usize::MAX,
        ensures
            data@.len() != prod(shape@) ==> r == Err::<Array, MinmlError>(
                MinmlError::DataSize { got: data@.len() as usize, expected: prod(shape@) as usize },
            ),
            data@.len() == prod(shape@) && device == Device::Cpu ==> (r matches Ok(a) && a@
                == evaluated_model(shape@, dtype, device, data@)),
            data@.len() == prod(shape@) && device == Device::WebGpu ==> (r matches Err(
                MinmlError::BackendNotBuilt(s),
            ) && s@ == "webgpu"@),
            data@.len() == prod(shape@) && device == Device::Cuda ==> (r matches Err(
                MinmlError::BackendNotBuilt(s),
            ) && s@ == "cuda"@),
            r matches Ok(a) ==> a.wf(),
    {
        let size = product(shape.as_slice());
        if data.len() != size {
            return Err(MinmlError::DataSize { got: data.len(), expected: size });
        }
        let mut buf = crate::device_dispatch::allocate(device, size * 4)?;
        crate::device_dispatch::h2d(device, &mut buf, data.as_slice())?;
        let words = buf.into_words();
        assert(words@ =~= data@);
        Ok(Array::new_evaluated(shape, dtype, device, words))
    }

    /// A Float32 array from the IEEE-754 bit patterns of its elements.
    pub fn from_f32_bits_with_shape(bits: Vec<u32>, shape: Vec<usize>, device: Device) -> (r: Result<
        Array,
        MinmlError,
    >)
        requires
            shape_fits(shape@),
            bits@.len() == prod(shape@) ==> prod(shape@) * 4 <= usize::MAX,
        ensures
            bits@.len() != prod(shape@) ==> r == Err::<Array, MinmlError>(
                MinmlError::DataSize { got: bits@.len() as usize, expected: prod(shape@) as usize },
            ),
            bits@.len() == prod(shape@) && device == Device::Cpu ==> (r matches Ok(a) && a@
                == evaluated_model(shape@, DType::Float32, device, bits@)),
            bits@.len() == prod(shape@) && device != Device::Cpu ==> (r matches Err(MinmlError::BackendNotBuilt(s)) && s@ == backend_name(device)),
            r matches Ok(a) ==> a.wf(),
    {
        Array::from_words_with_shape(bits, shape, DType::Float32, device)
    }

    /// An Int32 array with the given elements and shape.
    pub fn from_i32_with_shape(data: Vec<i32>, shape: Vec<usize>, device: Device) -> (r: Result<
        Array,
        MinmlError,
    >)
        requires
            shape_fits(shape@),
            data@.len() == prod(shape@) ==> prod(shape@) * 4 <= usize::MAX,
        ensures
            data@.len() != prod(shape@) ==> r == Err::<Array, MinmlError>(
                MinmlError::DataSize { got: data@.len() as usize, expected: prod(shape@) as usize },
            ),
            data@.len() == prod(shape@) && device == Device::Cpu ==> (r matches Ok(a) && a@
                == evaluated_model(shape@, DType::Int32, device, i32_words(data@))),
            data@.len() == prod(shape@) && device != Device::Cpu ==> (r matches Err(MinmlError::BackendNotBuilt(s)) && s@ == backend_name(device)),
            r matches Ok(a) ==> a.wf(),
    {
        let mut words: Vec<u32> = Vec::new();
        let mut i: usize = 0;
        while i < data.len()
            invariant
                i <= data@.len(),
                words@ == i32_words(data@.take(i as int)),
            decreases data@.len() - i,
        {
            words.push(data[i] as u32);
            i = i + 1;
            assert(words@ =~= i32_words(data@.take(i as int)));
        }
        assert(data@.take(data@.len() as int) =~= data@);
        Array::from_words_with_shape(words, shape, DType::Int32, device)
    }

    /// A 1-D Float32 array from the bit patterns of its elements.
    pub fn from_f32_bits_1d(bits: Vec<u32>, device: Device) -> (r: Result<Array, MinmlError>)
        requires
            bits@.len() * 4 <= usize::MAX,
        ensures
            device == Device::Cpu ==> (r matches Ok(a) && a@ == evaluated_model(
                seq![bits@.len() as usize],
                DType::Float32,
                device,
                bits@,
            )),
            device != Device::Cpu ==> (r matches Err(MinmlError::BackendNotBuilt(s)) && s@ == backend_name(device)),
            r matches Ok(a) ==> a.wf(),
    {
        let n = bits.len();
        proof {
            lemma_prod_single(n);
        }
        let shape = vec![n];
        assert(shape@ =~= seq![n]);
        Array::from_f32_bits_with_shape(bits, shape, device)
    }

    /// A 1-D Int32 array with the given elements.
    pub fn from_i32_1d(data: Vec<i32>, device: Device) -> (r: Result<Array, MinmlError>)
        requires
            data@.len() * 4 <= usize::MAX,
        ensures
            device == Device::Cpu ==> (r matches Ok(a) && a@ == evaluated_model(
                seq![data@.len() as usize],
                DType::Int32,
                device,
                i32_words(data@),
            )),
            device != Device::Cpu ==> (r matches Err(MinmlError::BackendNotBuilt(s)) && s@ == backend_name(device)),
            r matches Ok(a) ==> a.wf(),
    {
        let n = data.len();
        proof {
            lemma_prod_single(n);
        }
        let shape = vec![n];
        assert(shape@ =~= seq![n]);
        Array::from_i32_with_shape(data, shape, device)
    }

    /// A lazy node computing `prim` over `inputs`.
    pub fn lazy(shape: Vec<usize>, dtype: DType, device: Device, prim: Prim, inputs: Vec<Array>) -> (r:
        Array)
        requires
            shape_fits(shape@),
            prod(shape@) * 4 <= usize::MAX,
            node_ok(prim, models(inputs@), shape@, dtype),
            forall|i: int| 0 <= i < inputs@.len() ==> (#[trigger] inputs@[i]).wf(),
        ensures
            r@ == lazy_model(shape@, dtype, device, prim, models(inputs@)),
            r.wf(),
    {
        let size = product(shape.as_slice());
        let ghost ins = inputs@;
        let ghost m = lazy_model(shape@, dtype, device, prim, models(inputs@));
        let cache = RwLock::new(None, Ghost(CachedWords { node: Ghost(m) }));
        let mut integer_only = !needs_float_kernel(&prim);
        let mut i: usize = 0;
        while i < inputs.len()
            invariant
                i <= inputs@.len(),
                integer_only == (!is_float_prim(prim) && forall|j: int|
                    0 <= j < i ==> float_free(#[trigger] inputs@[j]@)),
            decreases inputs@.len() - i,
        {
            integer_only = integer_only && inputs[i].integer_only();
            i = i + 1;
        }
        proof {
            assert(integer_only == float_free(m)) by {
                if integer_only {
                    assert forall|j: int| 0 <= j < models(inputs@).len() implies float_free(
                        #[trigger] models(inputs@)[j],
                    ) by {
                        assert(models(inputs@)[j] == inputs@[j]@);
                    }
                }
                if float_free(m) && !is_float_prim(prim) {
                    assert forall|j: int| 0 <= j < inputs@.len() implies float_free(
                        #[trigger] inputs@[j]@,
                    ) by {
                        assert(models(inputs@)[j] == inputs@[j]@);
                    }
                }
            }
        }
        proof {
            let built = Seq::new(
                inputs@.len() as nat,
                |i: int|
                    if 0 <= i < inputs@.len() {
                        inputs@[i].model()
                    } else {
                        arbitrary()
                    },
            );
            assert(built =~= models(inputs@));
            assert forall|i: int| 0 <= i < models(ins).len() implies well_formed(
                #[trigger] models(ins)[i],
            ) by {
                assert(ins[i].wf());
            }
            assert(well_formed(m));
        }
        let r = Array {
            shape,
            size,
            device,
            dtype,
            batch_axis: None,
            inner: Arc::new(ArrayInner::Lazy { prim, inputs, integer_only, cache }),
        };
        proof {
            r.lemma_model_inputs();
            assert forall|i: int| 0 <= i < models(ins).len() implies well_formed(
                #[trigger] models(ins)[i],
            ) by {
                assert(ins[i].wf());
            }
        }
        r
    }

    pub fn shape(&self) -> (r: &[usize])
        ensures
            r@ == self@.shape,
    {
        self.shape.as_slice()
    }

    /// A copy of the shape.
    pub fn shape_vec(&self) -> (r: Vec<usize>)
        ensures
            r@ == self@.shape,
    {
        let r = self.shape.clone();
        assert(r@ =~= self.shape@);
        r
    }

    pub fn size(&self) -> (r: usize)
        ensures
            r == self@.size,
    {
        self.size
    }

    pub fn device(&self) -> (r: Device)
        ensures
            r == self@.device,
    {
        self.device
    }

    pub fn dtype(&self) -> (r: DType)
        ensures
            r == self@.dtype,
    {
        self.dtype
    }

    pub fn batch_axis(&self) -> (r: Option<i32>)
        ensures
            r == self@.batch_axis,
    {
        self.batch_axis
    }

    /// Whether the array holds its words, or its node (one whose graph
    /// needs no float kernel) has been evaluated through any handle that
    /// shares it.
    pub fn evaluated(&self) -> (r: bool)
        ensures
            self@.node is Evaluated ==> r,
            r ==> self@.node is Evaluated || (float_free(self@) && value(self@) is Some),
    {
        match &*self.inner {
            ArrayInner::Evaluated(_) => true,
            ArrayInner::Lazy { cache, .. } => {
                proof {
                    use_type_invariant(self);
                    self.lemma_model_inputs();
                    assert(cache.pred().node@ == node_key(self@));
                    assert(float_free(node_key(self@)) == float_free(self@));
                }
                let seen = cache.acquire_read();
                let done = match seen.borrow() {
                    Some(w) => {
                        proof {
                            lemma_key_evaluates(self@, w@);
                        }
                        true
                    },
                    None => false,
                };
                seen.release_read();
                done
            },
        }
    }

    /// Whether the array's graph needs no float kernel.
    pub fn integer_only(&self) -> (r: bool)
        ensures
            r == float_free(self@),
    {
        proof {
            use_type_invariant(self);
            self.lemma_model_inputs();
        }
        match &*self.inner {
            ArrayInner::Evaluated(_) => true,
            ArrayInner::Lazy { integer_only, cache, .. } => {
                proof {
                    assert(cache.pred().node@ == node_key(self@));
                    assert(float_free(node_key(self@)) == float_free(self@));
                }
                *integer_only
            },
        }
    }

    /// Whether this handle itself holds its words.
    pub fn holds_words(&self) -> (r: bool)
        ensures
            r == (self@.node is Evaluated),
    {
        match &*self.inner {
            ArrayInner::Evaluated(_) => true,
            ArrayInner::Lazy { .. } => false,
        }
    }

    /// The stored words of an evaluated array.
    pub fn words(&self) -> (r: Option<&Vec<u32>>)
        ensures
            r is Some <==> self@.node is Evaluated,
            r matches Some(d) ==> self@.node == NodeModel::Evaluated(d@),
    {
        proof {
            self.lemma_model_inputs();
        }
        match &*self.inner {
            ArrayInner::Evaluated(d) => Some(d),
            ArrayInner::Lazy { .. } => None,
        }
    }

    /// The buffer of an evaluated array.
    pub fn buffer(&self) -> (r: Option<CpuBuffer>)
        ensures
            r is Some <==> self@.node is Evaluated,
            r matches Some(b) ==> self@.node == NodeModel::Evaluated(b@),
    {
        proof {
            use_type_invariant(self);
            self.lemma_wf();
        }
        match self.words() {
            Some(d) => Some(CpuBuffer::from_words(d.clone())),
            None => None,
        }
    }

    /// The op and inputs of a lazy array.
    pub fn lazy_state(&self) -> (r: Option<(&Prim, &Vec<Array>)>)
        ensures
            r is Some <==> self@.node is Lazy,
            r matches Some((p, ins)) ==> self@.node == (NodeModel::Lazy {
                prim: *p,
                inputs: models(ins@),
            }),
            r matches Some((p, ins)) ==> forall|j: int|
                0 <= j < ins@.len() ==> decreases_to!(*self => #[trigger] ins@[j]),
    {
        proof {
            self.lemma_model_inputs();
            self.lemma_inputs_decrease();
        }
        match &*self.inner {
            ArrayInner::Evaluated(_) => None,
            ArrayInner::Lazy { prim, inputs, .. } => Some((prim, inputs)),
        }
    }

    /// The same array tagged with a vmap batch axis.
    pub fn with_batch_axis(&self, axis: i32) -> (r: Array)
        ensures
            r@ == (ArrayModel { batch_axis: Some(axis), ..self@ }),
    {
        let mut out = self.clone();
        proof {
            use_type_invariant(&out);
        }
        out.batch_axis = Some(axis);
        out
    }

    /// The same array without a vmap batch axis.
    pub fn strip_batch_axis(&self) -> (r: Array)
        ensures
            r@ == (ArrayModel { batch_axis: None, ..self@ }),
    {
        let mut out = self.clone();
        proof {
            use_type_invariant(&out);
        }
        out.batch_axis = None;
        out
    }

    /// Whether two arrays are the same node with the same metadata; true
    /// only for arrays with equal values.
    pub fn same_node(&self, other: &Array) -> (r: bool)
        ensures
            r ==> self@ == other@,
    {
        if !same_allocation(&self.inner, &other.inner) {
            return false;
        }
        let eq = same_shape(self.shape.as_slice(), other.shape.as_slice()) && self.size == other.size
            && self.device == other.device && self.dtype == other.dtype && self.batch_axis
            == other.batch_axis;
        proof {
            if eq {
                assert(self.model() == other.model());
            }
        }
        eq
    }
}

impl Clone for Array {
    fn clone(&self) -> (r: Array)
        ensures
            r@ == self@,
    {
        proof {
            use_type_invariant(self);
        }
        let shape = self.shape.clone();
        assert(shape@ =~= self.shape@);
        Array {
            shape,
            size: self.size,
            device: self.device,
            dtype: self.dtype,
            batch_axis: self.batch_axis,
            inner: self.inner.clone(),
        }
    }
}

/// The stored words of Int32 elements.
pub open spec fn i32_words(s: Seq<i32>) -> Seq<u32> {
    s.map_values(|v: i32| v as u32)
}

pub proof fn lemma_prod_single(n: usize)
    ensures
        prod(seq![n]) == n,
        shape_fits(seq![n]),
{
    let s = seq![n];
    let e = Seq::<usize>::empty();
    assert(s.drop_last() =~= e);
    assert(prod(e) == 1);
    assert(prod(s) == prod(e) * (n as nat));
    assert(s.take(0) =~= e);
    assert(s.take(1) =~= s);
    assert(prod(s.take(0)) <= usize::MAX);
    assert(prod(s.take(1)) <= usize::MAX);
    assert forall|i: int| 0 <= i <= s.len() implies #[trigger] prod(s.take(i)) <= usize::MAX by {
        if i == 0 {
        } else {
        }
    }
}

/// `w` is a possible outcome of evaluating `m`: one word per element,
/// and the value of `m` when no float kernel is involved.
pub open spec fn evaluates_to(m: ArrayModel, w: Seq<u32>) -> bool {
    &&& w.len() == m.size
    &&& (float_free(m) ==> value(m) == Some(w))
    &&& draws_in_range(m, w)
}

/// The words of a categorical node name classes: each is below the number
/// of classes (the length of the weights).
pub open spec fn draws_in_range(m: ArrayModel, w: Seq<u32>) -> bool {
    match m.node {
        NodeModel::Lazy { prim: Prim::CategoricalSample(_), inputs } => forall|i: int|
            0 <= i < w.len() ==> (#[trigger] w[i]) < inputs[0].shape[0],
        _ => true,
    }
}

/// Evaluating keeps an array's value: once a float-free array that has a
/// value holds its words, it has the same value as the graph it was, and
/// an array that already holds its words is left as it is. So `eval`
/// followed by a readback gives what the readback gave before, and a second
/// `eval` changes nothing.
pub proof fn lemma_eval_keeps_value(m: ArrayModel)
    requires
        float_free(m),
        value(m) is Some,
    ensures
        float_free(with_data(m, value(m)->0)),
        value(with_data(m, value(m)->0)) == value(m),
        m.node is Evaluated ==> with_data(m, value(m)->0) == m,
{
}

/// An elementwise add or mul node asks its kernel for one result per
/// element of its shape, over the words of its two inputs: its value is the
/// kernels' answer to that request when the answer holds one word per
/// element, and it has none otherwise.
pub proof fn lemma_elementwise_value<H: FloatKernels>(
    h: H,
    m: ArrayModel,
    prim: Prim,
    inputs: Seq<ArrayModel>,
    vals: Seq<Seq<u32>>,
    op: FloatOp,
)
    requires
        well_formed(m),
        m.device == Device::Cpu,
        m.node == (NodeModel::Lazy { prim, inputs }),
        (prim is Add && op == FloatOp::Add) || (prim is Mul && op == FloatOp::Mul),
        input_values_on(h, inputs, inputs.len()) == Some(vals),
    ensures
        value_on(h, m) is Some <==> (h.answer(op, vals, prod(m.shape)) matches Some(a) && a.len()
            == prod(m.shape)),
        value_on(h, m) matches Some(w) ==> h.answer(op, vals, prod(m.shape)) == Some(w),
{
}

/// A dot node asks its kernel for a single result over the words of its
/// two inputs, and its value is that answer.
pub proof fn lemma_dot_value<H: FloatKernels>(
    h: H,
    m: ArrayModel,
    inputs: Seq<ArrayModel>,
    vals: Seq<Seq<u32>>,
    q: crate::ops::DotPrim,
)
    requires
        well_formed(m),
        m.device == Device::Cpu,
        m.node == (NodeModel::Lazy { prim: Prim::Dot(q), inputs }),
        input_values_on(h, inputs, inputs.len()) == Some(vals),
    ensures
        value_on(h, m) is Some <==> (h.answer(FloatOp::Dot, vals, 1) matches Some(a) && a.len() == 1),
        value_on(h, m) matches Some(w) ==> h.answer(FloatOp::Dot, vals, 1) == Some(w),
{
}

/// A fused node hands its kernel its own expression, unchanged, with one
/// result per element: its value is the kernels' answer for that very
/// expression over the words of its inputs.
pub proof fn lemma_fused_value<H: FloatKernels>(
    h: H,
    m: ArrayModel,
    q: crate::transforms::FusedElementwisePrim,
    inputs: Seq<ArrayModel>,
    vals: Seq<Seq<u32>>,
)
    requires
        well_formed(m),
        m.device == Device::Cpu,
        m.node == (NodeModel::Lazy { prim: Prim::FusedElementwise(q), inputs }),
        input_values_on(h, inputs, inputs.len()) == Some(vals),
    ensures
        value_on(h, m) is Some <==> (h.answer(FloatOp::FusedElementwise(q.expr), vals, prod(m.shape)) matches Some(
            a,
        ) && a.len() == prod(m.shape)),
        value_on(h, m) matches Some(w) ==> h.answer(FloatOp::FusedElementwise(q.expr), vals, prod(m.shape))
            == Some(w),
{
}

/// A Dirichlet node asks its kernel for one row of `k` draws (`k` the
/// number of concentrations) per batch element, under the tagged key: the
/// rows times `k` make up every element of the node, so the answer it takes
/// as its value covers the whole batch.
pub proof fn lemma_dirichlet_request<H: FloatKernels>(
    h: H,
    m: ArrayModel,
    q: crate::ops::DirichletSamplePrim,
    inputs: Seq<ArrayModel>,
    vals: Seq<Seq<u32>>,
)
    requires
        well_formed(m),
        m.device == Device::Cpu,
        m.node == (NodeModel::Lazy { prim: Prim::DirichletSample(q), inputs }),
        input_values_on(h, inputs, inputs.len()) == Some(vals),
    ensures
        float_request_spec(Prim::DirichletSample(q), inputs) matches FloatOp::DirichletSample {
            k0,
            k1,
            batch,
            k,
        } && k0 == q.k0 ^ TAG_DIRICHLET && k1 == q.k1 && k == inputs[0].shape[0] && batch * k
            == m.size,
        value_on(h, m) matches Some(w) ==> w.len() == m.size && exists|batch: usize|
            batch * inputs[0].shape[0] == m.size && h.answer(
                FloatOp::DirichletSample {
                    k0: q.k0 ^ TAG_DIRICHLET,
                    k1: q.k1,
                    batch,
                    k: inputs[0].shape[0],
                },
                vals,
                m.size as nat,
            ) == Some(w),
{
    let bs = q.batch_shape@;
    assert(prod(bs) * inputs[0].shape[0] == m.size);
    assert(prod(bs) <= usize::MAX) by {
        if inputs[0].shape[0] > 0 {
            assert(prod(bs) <= prod(bs) * inputs[0].shape[0]) by (nonlinear_arith)
                requires
                    inputs[0].shape[0] > 0,
            ;
        } else {
            assert(shape_fits(bs));
            crate::shape::lemma_take_full(bs);
        }
    }
}

/// Draw `b` of a categorical node is the class picked from the kernels'
/// answer for the random word of draw `b` itself (the first class whose
/// flag is set, or the last class), one draw per element.
pub proof fn lemma_categorical_draws<H: FloatKernels>(
    h: H,
    m: ArrayModel,
    q: crate::ops::CategoricalSamplePrim,
    inputs: Seq<ArrayModel>,
    vals: Seq<Seq<u32>>,
    w: Seq<u32>,
)
    requires
        well_formed(m),
        m.device == Device::Cpu,
        m.node == (NodeModel::Lazy { prim: Prim::CategoricalSample(q), inputs }),
        input_values_on(h, inputs, inputs.len()) == Some(vals),
        value_on(h, m) == Some(w),
    ensures
        w.len() == m.size,
        forall|b: int|
            0 <= b < w.len() ==> picks_class_of_draw(
                h,
                q.k0,
                q.k1,
                vals,
                inputs[0].shape[0] as nat,
                b,
                #[trigger] w[b],
            ),
{
    let k = inputs[0].shape[0] as nat;
    assert forall|b: int| 0 <= b < w.len() implies picks_class_of_draw(
        h,
        q.k0,
        q.k1,
        vals,
        k,
        b,
        #[trigger] w[b],
    ) by {
        let prim = Prim::CategoricalSample(q);
        assert(value_on(h, m) == node_value_on(h, prim, inputs, vals, m));
        assert(k != 0 && m.size != 0);
        assert(categorical_value(h, q.k0, q.k1, vals, k, m.size as nat) == Some(w));
        assert(draw_answer(h, q.k0, q.k1, vals, k, b) matches Some(f) && f.len() == k);
        assert(w[b] == class_of(draw_answer(h, q.k0, q.k1, vals, k, b)->0) as u32);
    }
}

/// `x` is the class picked by draw `b` of a categorical node keyed by
/// `(k0, k1)` over `k` classes: the kernels answer the request for the
/// random word of draw `b` with one flag per class, and `x` is the first
/// class whose flag is set, or the last class.
pub open spec fn picks_class_of_draw<H: FloatKernels>(
    h: H,
    k0: u32,
    k1: u32,
    vals: Seq<Seq<u32>>,
    k: nat,
    b: int,
    x: u32,
) -> bool {
    let f = h.answer(FloatOp::CategoricalBelow { draw: categorical_draw(k0, k1, b) }, vals, k);
    &&& f is Some
    &&& f->0.len() == k
    &&& x == class_of(f->0) as u32
}

/// An array that reports itself evaluated is final: it holds its words, or
/// its graph needs no float kernel and has a value, so `eval` succeeds on it
/// and reads give that value with any float kernels.
pub proof fn lemma_evaluated_is_final<H: FloatKernels>(h: H, m: ArrayModel)
    requires
        m.node is Evaluated || (float_free(m) && value(m) is Some),
    ensures
        float_free(m),
        value(m) is Some,
        value_on(h, m) == value(m),
{
    lemma_value_on_float_free(h, m);
}

/// Every memo entry records the words of a node as the float kernels `h`
/// compute them.
pub open spec fn memo_ok<H: FloatKernels>(h: H, memo: Seq<(Array, Vec<u32>)>) -> bool {
    forall|k: int|
        0 <= k < memo.len() ==> {
            &&& memo[k].1@.len() == (#[trigger] memo[k]).0@.size
            &&& (float_free(memo[k].0@) ==> value(memo[k].0@) == Some(memo[k].1@))
            &&& draws_in_range(memo[k].0@, memo[k].1@)
            &&& value_on(h, memo[k].0@) == Some(memo[k].1@)
        }
}

/// The words recorded for `a`, if the memo holds its node.
fn memo_lookup<H: FloatKernels>(memo: &Vec<(Array, Vec<u32>)>, a: &Array, host: &H) -> (r: Option<
    Vec<u32>,
>)
    requires
        memo_ok(*host, memo@),
    ensures
        r matches Some(v) ==> v@.len() == a@.size,
        r matches Some(v) ==> (float_free(a@) ==> value(a@) == Some(v@)),
        r matches Some(v) ==> draws_in_range(a@, v@),
        r matches Some(v) ==> value_on(*host, a@) == Some(v@),
{
    let mut k: usize = 0;
    while k < memo.len()
        invariant
            k <= memo@.len(),
            memo_ok(*host, memo@),
        decreases memo@.len() - k,
    {
        if memo[k].0.same_node(a) {
            assert(memo@[k as int].0@ == a@);
            let v = memo[k].1.clone();
            assert(v@ =~= memo@[k as int].1@);
            return Some(v);
        }
        k = k + 1;
    }
    None
}

/// The element count of a shape without its first dimension.
pub fn product_after_first(shape: &[usize]) -> (r: usize)
    requires
        shape@.len() >= 1 ==> prod(shape@.skip(1)) <= usize::MAX,
    ensures
        shape@.len() == 0 ==> r == 1,
        shape@.len() >= 1 ==> r == prod(shape@.skip(1)),
{
    if shape.len() == 0 {
        return 1;
    }
    let ghost tail = shape@.skip(1);
    let mut z: usize = 1;
    while z < shape.len()
        invariant
            1 <= z <= shape@.len(),
            tail == shape@.skip(1),
            forall|j: int| 1 <= j < z ==> shape@[j] != 0,
        decreases shape@.len() - z,
    {
        if shape[z] == 0 {
            proof {
                assert(tail[z - 1] == shape@[z as int]);
                crate::shape::lemma_prod_zero(tail, z - 1);
            }
            return 0;
        }
        z = z + 1;
    }
    proof {
        assert forall|j: int| 0 <= j < tail.len() implies tail[j] > 0 by {
            assert(tail[j] == shape@[j + 1]);
        }
        lemma_prod_positive(tail);
        crate::shape::lemma_fits_from_total(tail);
    }
    let mut p: usize = 1;
    let mut i: usize = 1;
    while i < shape.len()
        invariant
            1 <= i <= shape@.len(),
            tail == shape@.skip(1),
            crate::shape::shape_fits(tail),
            p == prod(tail.take(i - 1)),
        decreases shape@.len() - i,
    {
        proof {
            crate::shape::lemma_prod_take_step(tail, i - 1);
            assert(tail[i - 1] == shape@[i as int]);
            assert(prod(tail.take(i as int)) <= usize::MAX);
        }
        p = p * shape[i];
        i = i + 1;
    }
    proof {
        crate::shape::lemma_take_full(tail);
    }
    p
}

/// A shape without zero dimensions has a positive element count.
pub proof fn lemma_prod_positive(s: Seq<usize>)
    requires
        forall|j: int| 0 <= j < s.len() ==> s[j] > 0,
    ensures
        prod(s) > 0,
    decreases s.len(),
{
    if s.len() > 0 {
        lemma_prod_positive(s.drop_last());
        let a = prod(s.drop_last());
        let b = s.last() as nat;
        assert(a * b > 0) by (nonlinear_arith)
            requires
                a > 0,
                b > 0,
        ;
    }
}

/// The element count of a non-empty shape is its first dimension times
/// the element count of the rest.
pub proof fn lemma_prod_first(s: Seq<usize>)
    requires
        s.len() >= 1,
    ensures
        prod(s) == (s[0] as nat) * prod(s.skip(1)),
{
    lemma_prod_single(s[0]);
    assert(seq![s[0]] + s.skip(1) =~= s);
    crate::shape::lemma_prod_append(seq![s[0]], s.skip(1));
}

/// What the float kernel of a float node other than a categorical one is
/// asked to compute: the node's own op; a Dirichlet node's key carries the
/// Dirichlet tag, and it asks for one row per batch element over the
/// classes of its concentrations.
pub open spec fn float_request_spec(prim: Prim, ins: Seq<ArrayModel>) -> FloatOp {
    match prim {
        Prim::Mul(_) => FloatOp::Mul,
        Prim::Dot(_) => FloatOp::Dot,
        Prim::FusedElementwise(q) => FloatOp::FusedElementwise(q.expr),
        Prim::DirichletSample(q) => FloatOp::DirichletSample {
            k0: q.k0 ^ TAG_DIRICHLET,
            k1: q.k1,
            batch: prod(q.batch_shape@) as usize,
            k: ins[0].shape[0],
        },
        _ => FloatOp::Add,
    }
}

/// The request a float node other than a categorical one hands to the
/// float kernel.
pub fn float_request(prim: &Prim, inputs: &Vec<Array>) -> (r: FloatOp)
    requires
        is_float_prim(*prim),
        !(*prim is CategoricalSample),
        *prim matches Prim::DirichletSample(q) ==> inputs@.len() >= 1 && inputs@[0]@.shape.len() >= 1
            && shape_fits(q.batch_shape@),
    ensures
        r == float_request_spec(*prim, models(inputs@)),
{
    match prim {
        Prim::Mul(_) => FloatOp::Mul,
        Prim::Dot(_) => FloatOp::Dot,
        Prim::FusedElementwise(q) => FloatOp::FusedElementwise(crate::transforms::copy_expr(&q.expr)),
        Prim::DirichletSample(q) => {
            assert(models(inputs@)[0] == inputs@[0]@);
            FloatOp::DirichletSample {
                k0: q.k0 ^ TAG_DIRICHLET,
                k1: q.k1,
                batch: product(q.batch_shape.as_slice()),
                k: inputs[0].shape[0],
            }
        },
        _ => FloatOp::Add,
    }
}

/// The request for draw `b` of a categorical node keyed by `(k0, k1)`.
pub fn categorical_request(k0: u32, k1: u32, b: usize) -> (r: FloatOp)
    ensures
        r == (FloatOp::CategoricalBelow { draw: categorical_draw(k0, k1, b as int) }),
{
    FloatOp::CategoricalBelow { draw: tagged_draw(k0, k1, TAG_CATEGORICAL_U, b as u32, 0) }
}

/// Runs the kernel of one lazy node whose inputs hold the words `vals`.
fn run_node<H: FloatKernels>(
    prim: &Prim,
    inputs: &Vec<Array>,
    vals: &Vec<Vec<u32>>,
    out: &Array,
    host: &H,
) -> (r: Result<Vec<u32>, MinmlError>)
    requires
        out.wf(),
        out@.node == (NodeModel::Lazy { prim: *prim, inputs: models(inputs@) }),
        vals@.len() == inputs@.len(),
        forall|j: int| 0 <= j < vals@.len() ==> (#[trigger] vals@[j])@.len() == inputs@[j]@.size,
    ensures
        r matches Ok(v) ==> v@.len() == out@.size,
        !is_float_prim(*prim) ==> (r is Ok <==> node_value(
            *prim,
            models(inputs@),
            views_of(vals@),
            out@,
        ) is Some),
        !is_float_prim(*prim) ==> (r matches Ok(v) ==> node_value(
            *prim,
            models(inputs@),
            views_of(vals@),
            out@,
        ) == Some(v@)),
        !is_float_prim(*prim) ==> (r matches Err(e) ==> node_error(
            *prim,
            models(inputs@),
            views_of(vals@),
            out@,
            e,
        )),
        r matches Ok(v) ==> draws_in_range(out@, v@),
        r matches Ok(v) ==> node_value_on(*host, *prim, models(inputs@), views_of(vals@), out@)
            == Some(v@),
        r matches Err(e) ==> node_error_on(*host, *prim, models(inputs@), views_of(vals@), out@, e),
{
    let ghost ins = models(inputs@);
    let ghost vs = views_of(vals@);
    assert(vals@.map_values(|w: Vec<u32>| w@) =~= vs);
    // The output is allocated on its device before the kernel runs.
    if out.device != Device::Cpu {
        return Err(crate::device_dispatch::not_built(out.device));
    }
    crate::ops::check_backend(prim, out.device)?;
    match prim {
        Prim::Ones(_) => Ok(crate::cpu::kernels::ones(out.dtype, out.size)),
        Prim::RandInt(q) => crate::cpu::random::randint(q.k0, q.k1, q.low, q.high, out.size),
        Prim::Gather(_) => {
            let table = &inputs[0];
            let idx = &vals[1];
            assert(ins[0] == table@);
            assert(vs[1] == idx@);
            assert(vs[0] == vals@[0]@);
            if idx.len() == 0 {
                assert(crate::cpu::kernels::indices_in_range(idx@, table@.shape[0] as nat));
                let ghost t = prod(table@.shape.skip(1));
                assert(out@.size == 0) by (nonlinear_arith)
                    requires
                        out@.size == idx@.len() * t,
                        idx@.len() == 0,
                ;
                let e: Vec<u32> = Vec::new();
                assert(e@ =~= crate::cpu::kernels::gather_spec(vs[0], t, idx@, 0));
                return Ok(e);
            }
            let ghost tail = table@.shape.skip(1);
            let ghost trail_n = prod(tail);
            proof {
                assert(out@.size == idx@.len() * trail_n);
                assert(trail_n <= out@.size) by (nonlinear_arith)
                    requires
                        out@.size == idx@.len() * trail_n,
                        idx@.len() >= 1,
                ;
                lemma_prod_first(table@.shape);
                assert(well_formed(table@));
            }
            let rows = table.shape[0];
            let trail = product_after_first(table.shape.as_slice());
            proof {
                assert(rows * trail <= vals@[0]@.len());
            }
            crate::cpu::kernels::gather(vals[0].as_slice(), rows, trail, idx.as_slice())
        },
        Prim::CategoricalSample(q) => {
            assert(ins[0] == inputs@[0]@);
            let k = inputs[0].shape[0];
            if k == 0 {
                // No classes: the weights sum to zero.
                return Err(MinmlError::Other(String::from_str("categorical: probs sum to 0")));
            }
            let batch = out.size;
            if batch == 0 {
                // A batch of no draws still weighs the classes first, but
                // has no place for its draw.
                host.run(&categorical_request(q.k0, q.k1, 0), vals.as_slice(), k)?;
                return Err(MinmlError::Other(String::from_str("categorical_sample: empty batch")));
            }
            let mut picks: Vec<u32> = Vec::new();
            let mut b: usize = 0;
            while b < batch
                invariant
                    b <= batch,
                    batch == out@.size,
                    k >= 1,
                    is_float_prim(*prim),
                    ins.len() >= 1,
                    k == ins[0].shape[0],
                    ins == models(inputs@),
                    vs == views_of(vals@),
                    *prim == Prim::CategoricalSample(*q),
                    out@.device == Device::Cpu,
                    picks@.len() == b,
                    forall|i: int| 0 <= i < b ==> (#[trigger] picks@[i]) < k,
                    forall|c: int|
                        0 <= c < b ==> (#[trigger] draw_answer(*host, q.k0, q.k1, vs, k as nat, c) matches Some(
                            f,
                        ) && f.len() == k),
                    picks@ == Seq::new(
                        b as nat,
                        |c: int| class_of(draw_answer(*host, q.k0, q.k1, vs, k as nat, c)->0) as u32,
                    ),
                decreases batch - b,
            {
                let answers = host.run(&categorical_request(q.k0, q.k1, b), vals.as_slice(), k)?;
                if answers.len() != k {
                    return Err(MinmlError::Other(String::from_str("float kernel returned a buffer of the wrong size")));
                }
                proof {
                    assert(vals@.map_values(|w: Vec<u32>| w@) =~= vs);
                    assert(draw_answer(*host, q.k0, q.k1, vs, k as nat, b as int) == Some(answers@));
                }
                let pick = categorical_pick(answers.as_slice());
                let word = #[verifier::truncate] (pick as u32);
                proof {
                    if pick <= u32::MAX {
                        assert(word == pick);
                    }
                    assert(word == class_of(answers@) as u32);
                }
                let ghost before = picks@;
                picks.push(word);
                proof {
                    assert(picks@ =~= Seq::new(
                        (b + 1) as nat,
                        |c: int| class_of(draw_answer(*host, q.k0, q.k1, vs, k as nat, c)->0) as u32,
                    ));
                }
                b = b + 1;
            }
            proof {
                assert(out@.node matches NodeModel::Lazy { prim: Prim::CategoricalSample(_), inputs: _ });
                assert(categorical_value(*host, q.k0, q.k1, vs, k as nat, batch as nat) == Some(picks@));
            }
            Ok(picks)
        },
        _ => {
            proof {
                assert(well_formed(out@));
                if *prim is DirichletSample {
                    assert(models(inputs@).len() >= 1);
                    assert(models(inputs@)[0] == inputs@[0]@);
                }
            }
            let op = float_request(prim, inputs);
            let res = host.run(&op, vals.as_slice(), out.size)?;
            if res.len() != out.size {
                return Err(MinmlError::Other(String::from_str("float kernel returned a buffer of the wrong size")));
            }
            Ok(res)
        },
    }
}

impl Array {
    fn eval_node<H: FloatKernels>(&self, host: &H, memo: &mut Vec<(Array, Vec<u32>)>) -> (r: Result<
        Vec<u32>,
        MinmlError,
    >)
        requires
            self.wf(),
            memo_ok(*host, old(memo)@),
        ensures
            memo_ok(*host, final(memo)@),
            r matches Ok(v) ==> v@.len() == self@.size,
            float_free(self@) ==> (r is Ok <==> value(self@) is Some),
            float_free(self@) ==> (r matches Ok(v) ==> value(self@) == Some(v@)),
            float_free(self@) ==> (r matches Err(e) ==> eval_error(self@, e)),
            r matches Ok(v) ==> draws_in_range(self@, v@),
            r matches Ok(v) ==> value_on(*host, self@) == Some(v@),
            r matches Err(e) ==> eval_error_on(*host, self@, e),
        decreases self,
    {
        proof {
            self.lemma_model_inputs();
        }
        match &*self.inner {
            ArrayInner::Evaluated(d) => {
                let v = d.clone();
                assert(v@ =~= d@);
                Ok(v)
            },
            ArrayInner::Lazy { prim, inputs, integer_only, cache } => {
                proof {
                    use_type_invariant(self);
                    assert(cache.pred().node@ == node_key(self@));
                }
                // A node that some handle has evaluated before gives the
                // words it was evaluated to.
                let seen = cache.acquire_read();
                let cached = match seen.borrow() {
                    Some(w) => {
                        let c = w.clone();
                        assert(c@ =~= w@);
                        Some(c)
                    },
                    None => None,
                };
                seen.release_read();
                if let Some(w) = cached {
                    proof {
                        lemma_key_evaluates(self@, w@);
                        assert(float_free(node_key(self@)) == float_free(self@));
                        lemma_value_on_float_free(*host, self@);
                    }
                    return Ok(w);
                }
                // Within one evaluation, a node reached along several paths
                // is computed once.
                if let Some(v) = memo_lookup(memo, self, host) {
                    return Ok(v);
                }
                let ghost ins = models(inputs@);
                proof {
                    broadcast use vstd::std_specs::vec::group_vec_axioms;

                    assert forall|j: int| 0 <= j < inputs@.len() implies decreases_to!(*self => #[trigger] inputs@[j]) by {
                        assert(decreases_to!(*self => self.inner));
                        assert(decreases_to!(*inputs => inputs@));
                        assert(decreases_to!(*inputs => inputs@[j]));
                    }
                    assert forall|j: int| 0 <= j < inputs@.len() implies (#[trigger] inputs@[j]).wf() by {
                        assert(ins[j] == inputs@[j]@);
                    }
                }
                // Like a post-order walk with a stack, the inputs are
                // evaluated from the last one to the first.
                let n = inputs.len();
                let mut vals: Vec<Vec<u32>> = Vec::new();
                let mut t: usize = 0;
                while t < n
                    invariant
                        t <= n,
                        vals@.len() == t,
                    decreases n - t,
                {
                    vals.push(Vec::new());
                    t = t + 1;
                }
                let mut i: usize = n;
                while i > 0
                    invariant
                        i <= n == inputs@.len(),
                        memo_ok(*host, memo@),
                        ins == models(inputs@),
                        self@.node == (NodeModel::Lazy { prim: *prim, inputs: ins }),
                        forall|j: int| 0 <= j < inputs@.len() ==> decreases_to!(*self => #[trigger] inputs@[j]),
                        forall|j: int| 0 <= j < inputs@.len() ==> (#[trigger] inputs@[j]).wf(),
                        vals@.len() == n,
                        forall|j: int| i <= j < n ==> (#[trigger] vals@[j])@.len() == inputs@[j]@.size,
                        float_free(self@) ==> forall|j: int|
                            i <= j < n ==> value(#[trigger] ins[j]) == Some(vals@[j]@),
                        forall|j: int| i <= j < n ==> value_on(*host, #[trigger] ins[j]) == Some(vals@[j]@),
                    decreases i,
                {
                    i = i - 1;
                    let res = inputs[i].eval_node(host, memo);
                    match res {
                        Ok(v) => {
                            let ghost vv = v@;
                            vals.set(i, v);
                            proof {
                                assert(ins[i as int] == inputs@[i as int]@);
                                if float_free(self@) {
                                    assert(float_free(ins[i as int]));
                                    assert(vals@[i as int]@ == vv);
                                }
                            }
                        },
                        Err(e) => {
                            proof {
                                assert(ins[i as int] == inputs@[i as int]@);
                                if float_free(self@) {
                                    assert(float_free(ins[i as int]));
                                    assert(value(ins[i as int]) is None);
                                    lemma_input_values_fail(ins, i as int);
                                    lemma_input_values_none(ins, (i + 1) as nat, ins.len());
                                    assert(values_from(ins, i + 1 as int));
                                    assert(inputs_error_from(ins, i as nat, e));
                                    lemma_inputs_error_down(ins, i as nat, e);
                                }
                                assert(values_from_on(*host, ins, i + 1 as int));
                                assert(inputs_error_from_on(*host, ins, i as nat, e));
                                lemma_inputs_error_down_on(*host, ins, i as nat, e);
                            }
                            return Err(e);
                        },
                    }
                }
                proof {
                    if float_free(self@) {
                        lemma_input_values_all(ins, views_of(vals@), n as nat);
                        assert(views_of(vals@).take(n as int) =~= views_of(vals@));
                    }
                    lemma_input_values_all_on(*host, ins, views_of(vals@), n as nat);
                    assert(views_of(vals@).take(n as int) =~= views_of(vals@));
                }
                let out = run_node(prim, inputs, &vals, self, host)?;
                let kept = out.clone();
                proof {
                    assert(kept@ =~= out@);
                }
                memo.push((self.clone(), kept));
                if *integer_only {
                    let shared = out.clone();
                    proof {
                        assert(shared@ =~= out@);
                        lemma_key_evaluates(self@, out@);
                        assert(float_free(node_key(self@)) == float_free(self@));
                    }
                    // Every handle that shares the node now reads these words.
                    let (_, held) = cache.acquire_write();
                    held.release_write(Some(shared));
                }
                Ok(out)
            },
        }
    }

    /// Evaluates the array in place: afterwards this handle holds its words,
    /// the value of its graph with the float kernels `host`. A node reached
    /// along several paths is computed once. A node whose graph needs no
    /// float kernel keeps its words, so its clones and every other graph
    /// that shares it read them without computing it again (and report it
    /// `evaluated`). When a node fails, it stays unevaluated and the array
    /// is left as it was.
    pub fn eval<H: FloatKernels>(&mut self, host: &H) -> (r: Result<(), MinmlError>)
        ensures
            final(self).wf(),
            r is Err ==> final(self)@ == old(self)@,
            r is Ok ==> final(self)@.node is Evaluated,
            r is Ok ==> final(self)@ == with_data(old(self)@, final(self)@.node->Evaluated_0),
            float_free(old(self)@) ==> (r is Ok <==> value(old(self)@) is Some),
            float_free(old(self)@) ==> (r matches Err(e) ==> eval_error(old(self)@, e)),
            r is Ok ==> draws_in_range(old(self)@, final(self)@.node->Evaluated_0),
            r is Ok ==> value_on(*host, old(self)@) == Some(final(self)@.node->Evaluated_0),
            r matches Err(e) ==> eval_error_on(*host, old(self)@, e),
            float_free(old(self)@) && r is Ok ==> final(self)@ == with_data(
                old(self)@,
                value(old(self)@)->0,
            ),
    {
        proof {
            use_type_invariant(&*self);
            self.lemma_wf();
        }
        if self.holds_words() {
            proof {
                self.lemma_model_inputs();
                assert(self@ == with_data(self@, self@.node->Evaluated_0));
            }
            return Ok(());
        }
        let mut memo: Vec<(Array, Vec<u32>)> = Vec::new();
        let v = self.eval_node(host, &mut memo)?;
        self.inner = Arc::new(ArrayInner::Evaluated(v));
        proof {
            self.lemma_model_inputs();
            assert(self@ == with_data(old(self)@, v@));
        }
        Ok(())
    }

    /// The words of the array's value, evaluating a lazy array.
    pub fn tolist_words<H: FloatKernels>(&self, host: &H) -> (r: Result<Vec<u32>, MinmlError>)
        ensures
            r matches Ok(v) ==> v@.len() == self@.size,
            r matches Ok(v) ==> evaluates_to(self@, v@),
            self@.node matches NodeModel::Evaluated(d) ==> (r matches Ok(v) && v@ == d),
            float_free(self@) ==> (r is Ok <==> value(self@) is Some),
            float_free(self@) ==> (r matches Ok(v) ==> value(self@) == Some(v@)),
            float_free(self@) ==> (r matches Err(e) ==> eval_error(self@, e)),
            r matches Ok(v) ==> value_on(*host, self@) == Some(v@),
            r matches Err(e) ==> eval_error_on(*host, self@, e),
    {
        proof {
            use_type_invariant(self);
            self.lemma_wf();
        }
        let mut memo: Vec<(Array, Vec<u32>)> = Vec::new();
        self.eval_node(host, &mut memo)
    }

    /// The elements of an Int32 array, evaluating a lazy array.
    pub fn tolist_int_sync<H: FloatKernels>(&self, host: &H) -> (r: Result<Vec<i32>, MinmlError>)
        ensures
            r matches Ok(v) ==> v@.len() == self@.size,
            r matches Ok(v) ==> evaluates_to(self@, i32_words(v@)),
            self@.node matches NodeModel::Evaluated(d) ==> (r matches Ok(v) && i32_words(v@) == d),
            float_free(self@) ==> (r is Ok <==> value(self@) is Some),
            float_free(self@) ==> (r matches Ok(v) ==> value(self@) == Some(i32_words(v@))),
            float_free(self@) ==> (r matches Err(e) ==> eval_error(self@, e)),
            r matches Ok(v) ==> value_on(*host, self@) == Some(i32_words(v@)),
            r matches Err(e) ==> eval_error_on(*host, self@, e),
    {
        proof {
            use_type_invariant(self);
            self.lemma_wf();
        }
        let words = self.tolist_words(host)?;
        let mut out: Vec<i32> = Vec::new();
        let mut i: usize = 0;
        while i < words.len()
            invariant
                i <= words@.len(),
                out@.len() == i,
                forall|k: int| 0 <= k < i ==> (#[trigger] out@[k]) as u32 == words@[k],
            decreases words@.len() - i,
        {
            let w = words[i];
            let v = #[verifier::truncate] (w as i32);
            assert(v as u32 == w) by (bit_vector)
                requires
                    v == w as i32,
            ;
            out.push(v);
            i = i + 1;
        }
        assert(i32_words(out@) =~= words@);
        Ok(out)
    }

    /// The single word of a one-element array, evaluating a lazy array.
    pub fn item_word_sync<H: FloatKernels>(&self, host: &H) -> (r: Result<u32, MinmlError>)
        ensures
            self@.size != 1 ==> r == Err::<u32, MinmlError>(MinmlError::ItemRequiresSize1),
            self@.size == 1 ==> (r matches Ok(w) ==> evaluates_to(self@, seq![w])),
            self@.size == 1 ==> (self@.node matches NodeModel::Evaluated(d) ==> r == Ok::<
                u32,
                MinmlError,
            >(d[0])),
            float_free(self@) && self@.size == 1 ==> (r is Ok <==> value(self@) is Some),
            float_free(self@) && self@.size == 1 ==> (r matches Err(e) ==> eval_error(self@, e)),
            float_free(self@) && self@.size == 1 ==> (r matches Ok(w) ==> value(self@) == Some(
                seq![w],
            )),
            r matches Ok(w) ==> value_on(*host, self@) == Some(seq![w]),
            self@.size == 1 ==> (r matches Err(e) ==> eval_error_on(*host, self@, e)),
    {
        proof {
            use_type_invariant(self);
            self.lemma_wf();
        }
        if self.size != 1 {
            return Err(MinmlError::ItemRequiresSize1);
        }
        let words = self.tolist_words(host)?;
        proof {
            assert(words@ =~= seq![words@[0]]);
        }
        Ok(words[0])
    }
}

} // verus!
