// Op entry points. Each builds a lazy Array node; evaluation (see
// `Array::eval`) walks the graph and runs the kernels.
use crate::array::{
    Array,
    ArrayModel,
    NodeModel,
    input_values,
    lazy_model,
    models,
    same_shape,
    value,
    well_formed,
};
use crate::cpu::kernels::{gather_spec, index_of, indices_in_range, lemma_gather_index, ones_spec};
use crate::cpu::random::{TAG_RANDINT, randint_spec, randint_value, span_spec};
use crate::device::Device;
use crate::dtype::DType;
use crate::error::MinmlError;
use crate::primitive::Primitive;
use crate::prng::PRNGKey;
use crate::shape::{prod, shape_fits};
use crate::transforms::{FusedElementwisePrim, inputs_below};
use vstd::prelude::*;

verus! {

pub struct AddPrim;

pub struct MulPrim;

pub struct DotPrim;

pub struct OnesPrim;

pub struct RandIntPrim {
    pub k0: u32,
    pub k1: u32,
    pub low: i32,
    pub high: i32,
}

pub struct GatherPrim;

pub struct DirichletSamplePrim {
    pub k0: u32,
    pub k1: u32,
    pub batch_shape: Vec<usize>,
}

pub struct CategoricalSamplePrim {
    pub k0: u32,
    pub k1: u32,
    pub batch_shape: Vec<usize>,
}

/// The op of a lazy node.
pub enum Prim {
    Add(AddPrim),
    Mul(MulPrim),
    Dot(DotPrim),
    Ones(OnesPrim),
    RandInt(RandIntPrim),
    Gather(GatherPrim),
    DirichletSample(DirichletSamplePrim),
    CategoricalSample(CategoricalSamplePrim),
    FusedElementwise(FusedElementwisePrim),
}

/// Ops whose CPU kernel computes on floating-point values.
pub open spec fn is_float_prim(p: Prim) -> bool {
    match p {
        Prim::Add(_) => true,
        Prim::Mul(_) => true,
        Prim::Dot(_) => true,
        Prim::DirichletSample(_) => true,
        Prim::CategoricalSample(_) => true,
        Prim::FusedElementwise(_) => true,
        _ => false,
    }
}

/// Ops that every backend provides (the others exist on the CPU only).
pub open spec fn is_portable_prim(p: Prim) -> bool {
    match p {
        Prim::Add(_) => true,
        Prim::Mul(_) => true,
        Prim::Dot(_) => true,
        Prim::FusedElementwise(_) => true,
        _ => false,
    }
}

/// The name of an op.
pub open spec fn prim_name(p: Prim) -> Seq<char> {
    match p {
        Prim::Add(_) => "add"@,
        Prim::Mul(_) => "mul"@,
        Prim::Dot(_) => "dot"@,
        Prim::Ones(_) => "ones"@,
        Prim::RandInt(_) => "randint"@,
        Prim::Gather(_) => "gather"@,
        Prim::DirichletSample(_) => "dirichlet_sample"@,
        Prim::CategoricalSample(_) => "categorical_sample"@,
        Prim::FusedElementwise(_) => "fused_elementwise"@,
    }
}

/// What a node's kernel needs of its inputs and output to run: the
/// operand sizes it reads and the output size it writes.
pub open spec fn node_ok(p: Prim, ins: Seq<ArrayModel>, shape: Seq<usize>, dtype: DType) -> bool {
    let size = prod(shape);
    match p {
        Prim::Add(_) => ins.len() == 2 && ins[0].size == size && ins[1].size == size,
        Prim::Mul(_) => ins.len() == 2 && ins[0].size == size && ins[1].size == size,
        Prim::Dot(_) => ins.len() == 2 && ins[0].size == ins[1].size && size == 1,
        Prim::Ones(_) => true,
        Prim::RandInt(_) => true,
        Prim::Gather(_) => {
            &&& ins.len() == 2
            &&& ins[0].shape.len() >= 1
            &&& size == ins[1].size * prod(ins[0].shape.skip(1))
        },
        Prim::DirichletSample(q) => {
            &&& ins.len() == 1
            &&& ins[0].shape.len() >= 1
            &&& ins[0].size >= ins[0].shape[0]
            &&& shape_fits(q.batch_shape@)
            &&& size == prod(q.batch_shape@) * ins[0].shape[0]
        },
        Prim::CategoricalSample(q) => {
            &&& ins.len() == 1
            &&& ins[0].shape.len() >= 1
            &&& ins[0].size >= ins[0].shape[0]
            &&& shape_fits(q.batch_shape@)
            &&& size == prod(q.batch_shape@)
        },
        Prim::FusedElementwise(q) => {
            &&& inputs_below(q.expr, ins.len())
            &&& forall|i: int| 0 <= i < ins.len() ==> (#[trigger] ins[i]).size == size
        },
    }
}

impl Primitive for AddPrim {
    fn name(&self) -> (s: &'static str)
        ensures
            s@ == "add"@,
    {
        "add"
    }
}

impl Primitive for MulPrim {
    fn name(&self) -> (s: &'static str)
        ensures
            s@ == "mul"@,
    {
        "mul"
    }
}

impl Primitive for DotPrim {
    fn name(&self) -> (s: &'static str)
        ensures
            s@ == "dot"@,
    {
        "dot"
    }
}

impl Primitive for OnesPrim {
    fn name(&self) -> (s: &'static str)
        ensures
            s@ == "ones"@,
    {
        "ones"
    }
}

impl Primitive for RandIntPrim {
    fn name(&self) -> (s: &'static str)
        ensures
            s@ == "randint"@,
    {
        "randint"
    }
}

impl Primitive for GatherPrim {
    fn name(&self) -> (s: &'static str)
        ensures
            s@ == "gather"@,
    {
        "gather"
    }
}

impl Primitive for DirichletSamplePrim {
    fn name(&self) -> (s: &'static str)
        ensures
            s@ == "dirichlet_sample"@,
    {
        "dirichlet_sample"
    }
}

impl Primitive for CategoricalSamplePrim {
    fn name(&self) -> (s: &'static str)
        ensures
            s@ == "categorical_sample"@,
    {
        "categorical_sample"
    }
}

impl Primitive for FusedElementwisePrim {
    fn name(&self) -> (s: &'static str)
        ensures
            s@ == "fused_elementwise"@,
    {
        "fused_elementwise"
    }
}

impl Primitive for Prim {
    fn name(&self) -> (s: &'static str)
        ensures
            s@ == prim_name(*self),
    {
        match self {
            Prim::Add(p) => p.name(),
            Prim::Mul(p) => p.name(),
            Prim::Dot(p) => p.name(),
            Prim::Ones(p) => p.name(),
            Prim::RandInt(p) => p.name(),
            Prim::Gather(p) => p.name(),
            Prim::DirichletSample(p) => p.name(),
            Prim::CategoricalSample(p) => p.name(),
            Prim::FusedElementwise(p) => p.name(),
        }
    }
}

/// Picks the backend for a node on `device`; fails where the op has no
/// kernel there.
pub fn check_backend(p: &Prim, device: Device) -> (r: Result<(), MinmlError>)
    ensures
        r is Ok <==> device == Device::Cpu,
        r matches Err(e) ==> {
            if is_portable_prim(*p) {
                &&& e matches MinmlError::BackendNotBuilt(s)
                &&& (device == Device::WebGpu ==> s@ == "webgpu"@)
                &&& (device == Device::Cuda ==> s@ == "cuda"@)
            } else {
                &&& e matches MinmlError::OpNotImplemented { op, device: d }
                &&& op@ == prim_name(*p)
                &&& d == device
            }
        },
{
    match device {
        Device::Cpu => Ok(()),
        Device::WebGpu => match p {
            Prim::Add(_) | Prim::Mul(_) | Prim::Dot(_) | Prim::FusedElementwise(_) => Err(
                MinmlError::BackendNotBuilt("webgpu"),
            ),
            _ => Err(MinmlError::OpNotImplemented { op: p.name(), device }),
        },
        Device::Cuda => match p {
            Prim::Add(_) | Prim::Mul(_) | Prim::Dot(_) | Prim::FusedElementwise(_) => Err(
                MinmlError::BackendNotBuilt("cuda"),
            ),
            _ => Err(MinmlError::OpNotImplemented { op: p.name(), device }),
        },
    }
}

} // verus!

verus! {

/// Elementwise ops need operands of one shape on one device.
fn check_same_shape(a: &Array, b: &Array) -> (r: Result<(), MinmlError>)
    ensures
        a@.shape != b@.shape ==> r == Err::<(), MinmlError>(MinmlError::ShapeMismatch),
        a@.shape == b@.shape && a@.device != b@.device ==> r == Err::<(), MinmlError>(
            MinmlError::DeviceMismatch,
        ),
        a@.shape == b@.shape && a@.device == b@.device ==> r is Ok,
{
    if !same_shape(a.shape(), b.shape()) {
        return Err(MinmlError::ShapeMismatch);
    }
    if a.device() != b.device() {
        return Err(MinmlError::DeviceMismatch);
    }
    Ok(())
}

proof fn lemma_wf_facts(a: &Array)
    requires
        a.wf(),
    ensures
        shape_fits(a@.shape),
        a@.size == prod(a@.shape),
        a@.size * 4 <= usize::MAX,
{
}

/// Two well-formed arrays, as a sequence of inputs.
proof fn lemma_pair_models(a: &Array, b: &Array, v: Vec<Array>)
    requires
        v@.len() == 2,
        v@[0]@ == a@,
        v@[1]@ == b@,
    ensures
        models(v@) == seq![a@, b@],
{
    assert(models(v@) =~= seq![a@, b@]);
}

proof fn lemma_single_model(a: &Array, v: Vec<Array>)
    requires
        v@.len() == 1,
        v@[0]@ == a@,
    ensures
        models(v@) == seq![a@],
{
    assert(models(v@) =~= seq![a@]);
}

/// Elementwise sum, built lazily.
pub fn add(a: &Array, b: &Array) -> (r: Result<Array, MinmlError>)
    ensures
        a@.shape != b@.shape ==> r == Err::<Array, MinmlError>(MinmlError::ShapeMismatch),
        a@.shape == b@.shape && a@.device != b@.device ==> r == Err::<Array, MinmlError>(
            MinmlError::DeviceMismatch,
        ),
        a@.shape == b@.shape && a@.device == b@.device ==> (r matches Ok(o) && o@ == lazy_model(
            a@.shape,
            a@.dtype,
            a@.device,
            Prim::Add(AddPrim),
            seq![a@, b@],
        )),
        r matches Ok(o) ==> o.wf(),
{
    proof {
        use_type_invariant(a);
        a.lemma_wf();
        use_type_invariant(b);
        b.lemma_wf();
    }
    check_same_shape(a, b)?;
    let inputs = vec![a.clone(), b.clone()];
    proof {
        lemma_pair_models(a, b, inputs);
        lemma_wf_facts(a);
        lemma_wf_facts(b);
    }
    Ok(Array::lazy(a.shape_vec(), a.dtype(), a.device(), Prim::Add(AddPrim), inputs))
}

/// Elementwise product, built lazily.
pub fn mul(a: &Array, b: &Array) -> (r: Result<Array, MinmlError>)
    ensures
        a@.shape != b@.shape ==> r == Err::<Array, MinmlError>(MinmlError::ShapeMismatch),
        a@.shape == b@.shape && a@.device != b@.device ==> r == Err::<Array, MinmlError>(
            MinmlError::DeviceMismatch,
        ),
        a@.shape == b@.shape && a@.device == b@.device ==> (r matches Ok(o) && o@ == lazy_model(
            a@.shape,
            a@.dtype,
            a@.device,
            Prim::Mul(MulPrim),
            seq![a@, b@],
        )),
        r matches Ok(o) ==> o.wf(),
{
    proof {
        use_type_invariant(a);
        a.lemma_wf();
        use_type_invariant(b);
        b.lemma_wf();
    }
    check_same_shape(a, b)?;
    let inputs = vec![a.clone(), b.clone()];
    proof {
        lemma_pair_models(a, b, inputs);
        lemma_wf_facts(a);
        lemma_wf_facts(b);
    }
    Ok(Array::lazy(a.shape_vec(), a.dtype(), a.device(), Prim::Mul(MulPrim), inputs))
}

/// Inner product of two 1-D arrays, built lazily as a one-element array.
pub fn dot(a: &Array, b: &Array) -> (r: Result<Array, MinmlError>)
    ensures
        a@.shape != b@.shape ==> r == Err::<Array, MinmlError>(MinmlError::ShapeMismatch),
        a@.shape == b@.shape && a@.device != b@.device ==> r == Err::<Array, MinmlError>(
            MinmlError::DeviceMismatch,
        ),
        a@.shape == b@.shape && a@.device == b@.device && a@.shape.len() != 1 ==> r == Err::<
            Array,
            MinmlError,
        >(MinmlError::DotRequires1D),
        a@.shape == b@.shape && a@.device == b@.device && a@.shape.len() == 1 ==> (r matches Ok(o)
            && o@ == lazy_model(seq![1usize], a@.dtype, a@.device, Prim::Dot(DotPrim), seq![a@, b@])),
        r matches Ok(o) ==> o.wf(),
{
    proof {
        use_type_invariant(a);
        a.lemma_wf();
        use_type_invariant(b);
        b.lemma_wf();
    }
    check_same_shape(a, b)?;
    if a.shape().len() != 1 {
        return Err(MinmlError::DotRequires1D);
    }
    let inputs = vec![a.clone(), b.clone()];
    let shape = vec![1usize];
    proof {
        lemma_pair_models(a, b, inputs);
        lemma_wf_facts(a);
        lemma_wf_facts(b);
        assert(shape@ =~= seq![1usize]);
        crate::array::lemma_prod_single(1);
    }
    Ok(Array::lazy(shape, a.dtype(), a.device(), Prim::Dot(DotPrim), inputs))
}

/// An array of ones, built lazily.
pub fn ones(shape: Vec<usize>, dtype: DType, device: Device) -> (r: Array)
    requires
        shape_fits(shape@),
        prod(shape@) * 4 <= usize::MAX,
    ensures
        r@ == lazy_model(shape@, dtype, device, Prim::Ones(OnesPrim), Seq::empty()),
        r.wf(),
{
    let inputs: Vec<Array> = Vec::new();
    assert(models(inputs@) =~= Seq::<ArrayModel>::empty());
    Array::lazy(shape, dtype, device, Prim::Ones(OnesPrim), inputs)
}

/// Int32 draws from `[low, high)` under key `(k0, k1)`, built lazily.
pub fn randint(k0: u32, k1: u32, low: i32, high: i32, shape: Vec<usize>, device: Device) -> (r:
    Array)
    requires
        shape_fits(shape@),
        prod(shape@) * 4 <= usize::MAX,
    ensures
        r@ == lazy_model(
            shape@,
            DType::Int32,
            device,
            Prim::RandInt(RandIntPrim { k0, k1, low, high }),
            Seq::empty(),
        ),
        r.wf(),
{
    let inputs: Vec<Array> = Vec::new();
    assert(models(inputs@) =~= Seq::<ArrayModel>::empty());
    Array::lazy(
        shape,
        DType::Int32,
        device,
        Prim::RandInt(RandIntPrim { k0, k1, low, high }),
        inputs,
    )
}

/// The shape of a gather: the index shape followed by a table row's shape.
pub open spec fn gather_shape(table: Seq<usize>, indices: Seq<usize>) -> Seq<usize> {
    indices + table.skip(1)
}

/// Rows of `table` picked by the Int32 `indices`, built lazily.
pub fn gather(table: &Array, indices: &Array) -> (r: Result<Array, MinmlError>)
    requires
        indices@.dtype == DType::Int32 && table@.shape.len() >= 1 ==> shape_fits(
            gather_shape(table@.shape, indices@.shape),
        ) && prod(gather_shape(table@.shape, indices@.shape)) * 4 <= usize::MAX,
    ensures
        indices@.dtype != DType::Int32 ==> r == Err::<Array, MinmlError>(
            MinmlError::GatherIndicesNotInt32,
        ),
        indices@.dtype == DType::Int32 && table@.shape.len() == 0 ==> r == Err::<Array, MinmlError>(
            MinmlError::GatherTableRank,
        ),
        indices@.dtype == DType::Int32 && table@.shape.len() >= 1 ==> (r matches Ok(o) && o@
            == lazy_model(
            gather_shape(table@.shape, indices@.shape),
            table@.dtype,
            table@.device,
            Prim::Gather(GatherPrim),
            seq![table@, indices@],
        )),
        r matches Ok(o) ==> o.wf(),
{
    proof {
        use_type_invariant(table);
        table.lemma_wf();
        use_type_invariant(indices);
        indices.lemma_wf();
    }
    if indices.dtype() != DType::Int32 {
        return Err(MinmlError::GatherIndicesNotInt32);
    }
    let tshape = table.shape();
    if tshape.len() == 0 {
        return Err(MinmlError::GatherTableRank);
    }
    let mut out_shape = indices.shape_vec();
    let mut d: usize = 1;
    while d < tshape.len()
        invariant
            1 <= d <= tshape@.len(),
            tshape@ == table@.shape,
            out_shape@ == indices@.shape + tshape@.subrange(1, d as int),
        decreases tshape@.len() - d,
    {
        out_shape.push(tshape[d]);
        d = d + 1;
        assert(out_shape@ =~= indices@.shape + tshape@.subrange(1, d as int));
    }
    assert(tshape@.subrange(1, tshape@.len() as int) =~= tshape@.skip(1));
    let inputs = vec![table.clone(), indices.clone()];
    proof {
        lemma_pair_models(table, indices, inputs);
        lemma_wf_facts(indices);
        crate::shape::lemma_prod_append(indices@.shape, table@.shape.skip(1));
    }
    Ok(Array::lazy(out_shape, table.dtype(), table.device(), Prim::Gather(GatherPrim), inputs))
}

/// The shape of `batch` samples of a `k`-outcome distribution.
pub open spec fn sample_shape(batch_shape: Seq<usize>, k: usize) -> Seq<usize> {
    batch_shape.push(k)
}

/// Dirichlet draws with concentrations `alpha` (1-D), one row per batch
/// element, built lazily.
pub fn dirichlet_sample(k0: u32, k1: u32, alpha: &Array, batch_shape: Vec<usize>) -> (r: Result<
    Array,
    MinmlError,
>)
    requires
        alpha@.shape.len() == 1 ==> shape_fits(sample_shape(batch_shape@, alpha@.shape[0])) && prod(
            sample_shape(batch_shape@, alpha@.shape[0]),
        ) * 4 <= usize::MAX,
    ensures
        alpha@.shape.len() != 1 ==> r == Err::<Array, MinmlError>(MinmlError::DirichletAlphaNot1D),
        alpha@.shape.len() == 1 ==> (r matches Ok(o) && o@ == lazy_model(
            sample_shape(batch_shape@, alpha@.shape[0]),
            DType::Float32,
            alpha@.device,
            Prim::DirichletSample(DirichletSamplePrim { k0, k1, batch_shape }),
            seq![alpha@],
        )),
        r matches Ok(o) ==> o.wf(),
{
    proof {
        use_type_invariant(alpha);
        alpha.lemma_wf();
    }
    let ashape = alpha.shape();
    if ashape.len() != 1 {
        return Err(MinmlError::DirichletAlphaNot1D);
    }
    let k = ashape[0];
    let mut out_shape = batch_shape.clone();
    assert(out_shape@ =~= batch_shape@);
    out_shape.push(k);
    let inputs = vec![alpha.clone()];
    proof {
        lemma_single_model(alpha, inputs);
        lemma_wf_facts(alpha);
        crate::array::lemma_prod_single(k);
        assert(alpha@.shape =~= seq![k]);
        assert(batch_shape@ + seq![k] =~= out_shape@);
        crate::shape::lemma_prod_append(batch_shape@, seq![k]);
        crate::shape::lemma_fits_prefix(batch_shape@, seq![k]);
    }
    Ok(
        Array::lazy(
            out_shape,
            DType::Float32,
            alpha.device(),
            Prim::DirichletSample(DirichletSamplePrim { k0, k1, batch_shape }),
            inputs,
        ),
    )
}

/// Categorical draws over the classes of `probs` (1-D), one per batch
/// element, built lazily.
pub fn categorical_sample(k0: u32, k1: u32, probs: &Array, batch_shape: Vec<usize>) -> (r: Result<
    Array,
    MinmlError,
>)
    requires
        probs@.shape.len() == 1 ==> shape_fits(batch_shape@) && prod(
            batch_shape@,
        ) * 4 <= usize::MAX,
    ensures
        probs@.shape.len() != 1 ==> r == Err::<Array, MinmlError>(
            MinmlError::CategoricalProbsNot1D,
        ),
        probs@.shape.len() == 1 ==> (r matches Ok(o) && o@ == lazy_model(
            batch_shape@,
            DType::Int32,
            probs@.device,
            Prim::CategoricalSample(CategoricalSamplePrim { k0, k1, batch_shape }),
            seq![probs@],
        )),
        r matches Ok(o) ==> o.wf(),
{
    proof {
        use_type_invariant(probs);
        probs.lemma_wf();
    }
    if probs.shape().len() != 1 {
        return Err(MinmlError::CategoricalProbsNot1D);
    }
    let out_shape = batch_shape.clone();
    assert(out_shape@ =~= batch_shape@);
    let inputs = vec![probs.clone()];
    proof {
        lemma_single_model(probs, inputs);
        lemma_wf_facts(probs);
        crate::array::lemma_prod_single(probs@.shape[0]);
        assert(probs@.shape =~= seq![probs@.shape[0]]);
    }
    Ok(
        Array::lazy(
            out_shape,
            DType::Int32,
            probs.device(),
            Prim::CategoricalSample(CategoricalSamplePrim { k0, k1, batch_shape }),
            inputs,
        ),
    )
}

pub struct Dirichlet {
    pub alpha: Array,
}

impl Dirichlet {
    pub fn new(alpha: Array) -> (r: Self)
        ensures
            r.alpha == alpha,
    {
        Self { alpha }
    }

    /// Dirichlet draws under `key`, one row per batch element.
    pub fn sample(&self, key: PRNGKey, batch_shape: Vec<usize>) -> (r: Result<Array, MinmlError>)
        requires
            self.alpha@.shape.len() == 1 ==> shape_fits(
                sample_shape(batch_shape@, self.alpha@.shape[0]),
            ) && prod(sample_shape(batch_shape@, self.alpha@.shape[0])) * 4 <= usize::MAX,
        ensures
            self.alpha@.shape.len() != 1 ==> r == Err::<Array, MinmlError>(
                MinmlError::DirichletAlphaNot1D,
            ),
            self.alpha@.shape.len() == 1 ==> (r matches Ok(o) && o@ == lazy_model(
                sample_shape(batch_shape@, self.alpha@.shape[0]),
                DType::Float32,
                self.alpha@.device,
                Prim::DirichletSample(
                    DirichletSamplePrim {
                        k0: key.words().0,
                        k1: key.words().1,
                        batch_shape,
                    },
                ),
                seq![self.alpha@],
            )),
            r matches Ok(o) ==> o.wf(),
    {
        proof {
            use_type_invariant(&self.alpha);
            self.alpha.lemma_wf();
        }
        dirichlet_sample(key.k0(), key.k1(), &self.alpha, batch_shape)
    }
}

pub struct Categorical {
    pub probs: Array,
}

impl Categorical {
    pub fn new(probs: Array) -> (r: Self)
        ensures
            r.probs == probs,
    {
        Self { probs }
    }

    /// Categorical draws under `key`, one per batch element.
    pub fn sample(&self, key: PRNGKey, batch_shape: Vec<usize>) -> (r: Result<Array, MinmlError>)
        requires
            self.probs@.shape.len() == 1 ==> shape_fits(batch_shape@)
                && prod(batch_shape@) * 4 <= usize::MAX,
        ensures
            self.probs@.shape.len() != 1 ==> r == Err::<Array, MinmlError>(
                MinmlError::CategoricalProbsNot1D,
            ),
            self.probs@.shape.len() == 1 ==> (r matches Ok(o) && o@ == lazy_model(
                batch_shape@,
                DType::Int32,
                self.probs@.device,
                Prim::CategoricalSample(
                    CategoricalSamplePrim {
                        k0: key.words().0,
                        k1: key.words().1,
                        batch_shape,
                    },
                ),
                seq![self.probs@],
            )),
            r matches Ok(o) ==> o.wf(),
    {
        proof {
            use_type_invariant(&self.probs);
            self.probs.lemma_wf();
        }
        categorical_sample(key.k0(), key.k1(), &self.probs, batch_shape)
    }
}

pub struct Normal;

impl Normal {
    pub fn new() -> (r: Self) {
        Self
    }

    /// Sampling from a normal distribution is not available: always fails.
    pub fn sample(&self, key: PRNGKey, batch_shape: Vec<usize>) -> (r: Result<Array, MinmlError>)
        ensures
            r matches Err(MinmlError::Other(s)) && s@ == "Normal::sample: not implemented yet"@,
    {
        let msg = "Normal::sample: not implemented yet";
        let s = String::from_str(msg);
        Err(MinmlError::Other(s))
    }
}

impl Default for Normal {
    fn default() -> (r: Self) {
        Self::new()
    }
}

/// An array of ones on the CPU evaluates to one stored one per element.
pub proof fn lemma_ones_value(shape: Seq<usize>, dtype: DType)
    requires
        prod(shape) <= usize::MAX,
    ensures
        value(lazy_model(shape, dtype, Device::Cpu, Prim::Ones(OnesPrim), Seq::empty())) == Some(
            ones_spec(dtype, prod(shape)),
        ),
{
}

/// A `randint` array on the CPU with a non-empty range evaluates to one
/// draw per element, and every draw, read as an Int32, lies in
/// `[low, high)`; with an empty range its evaluation fails.
pub proof fn lemma_randint_value(k0: u32, k1: u32, low: i32, high: i32, shape: Seq<usize>)
    requires
        prod(shape) <= usize::MAX,
    ensures
        ({
            let m = lazy_model(
                shape,
                DType::Int32,
                Device::Cpu,
                Prim::RandInt(RandIntPrim { k0, k1, low, high }),
                Seq::empty(),
            );
            &&& low < high ==> value(m) == Some(randint_spec(k0, k1, low, high, prod(shape)))
            &&& low < high ==> forall|i: int|
                0 <= i < prod(shape) ==> low <= #[trigger] index_of(value(m)->0[i]) < high
            &&& high <= low ==> value(m) is None
        }),
{
    if low < high {
        assert forall|i: int| 0 <= i < prod(shape) implies low <= #[trigger] index_of(
            randint_spec(k0, k1, low, high, prod(shape))[i],
        ) < high by {
            let bits = crate::threefry::threefry_spec(k0 ^ TAG_RANDINT, k1, i as u32, 0).0;
            let v = randint_value(k0, k1, low, high, i);
            assert(0 <= (bits as int) % span_spec(low, high) < span_spec(low, high));
            let x = v as i32;
            assert(x == v);
            assert(((x as u32) as i32) == x) by (bit_vector);
        }
    }
}

/// A gather on the CPU whose indices all name rows of the table evaluates
/// to the named rows laid end to end: element `j` of output row `i` is
/// element `j` of table row `indices[i]`. An index out of range makes the
/// evaluation fail.
pub proof fn lemma_gather_value(table: ArrayModel, indices: ArrayModel, tdata: Seq<u32>, idata: Seq<u32>)
    requires
        well_formed(table),
        well_formed(indices),
        table.shape.len() >= 1,
        table.device == Device::Cpu,
        table.node == NodeModel::Evaluated(tdata),
        indices.node == NodeModel::Evaluated(idata),
        prod(gather_shape(table.shape, indices.shape)) <= usize::MAX,
    ensures
        ({
            let m = lazy_model(
                gather_shape(table.shape, indices.shape),
                table.dtype,
                table.device,
                Prim::Gather(GatherPrim),
                seq![table, indices],
            );
            let rows = table.shape[0] as nat;
            let trail = prod(table.shape.skip(1));
            &&& indices_in_range(idata, rows) ==> value(m) == Some(
                gather_spec(tdata, trail, idata, idata.len()),
            )
            &&& indices_in_range(idata, rows) ==> forall|i: int, j: int|
                0 <= i < idata.len() && 0 <= j < trail ==> #[trigger] value(m)->0[i * trail + j]
                    == tdata[index_of(idata[i]) * trail + j]
            &&& !indices_in_range(idata, rows) ==> value(m) is None
        }),
{
    let m = lazy_model(
        gather_shape(table.shape, indices.shape),
        table.dtype,
        table.device,
        Prim::Gather(GatherPrim),
        seq![table, indices],
    );
    let rows = table.shape[0] as nat;
    let trail = prod(table.shape.skip(1));
    let ins = seq![table, indices];
    assert(input_values(ins, 0) == Some(Seq::<Seq<u32>>::empty()));
    assert(value(table) == Some(tdata));
    assert(value(indices) == Some(idata));
    assert(ins[0] == table && ins[1] == indices);
    assert(Seq::<Seq<u32>>::empty().push(tdata) =~= seq![tdata]);
    assert(input_values(ins, 1) == Some(seq![tdata]));
    assert(seq![tdata].push(idata) =~= seq![tdata, idata]);
    assert(input_values(ins, 2) == Some(seq![tdata, idata]));
    if indices_in_range(idata, rows) {
        crate::array::lemma_prod_first(table.shape);
        assert(rows * trail <= tdata.len());
        assert forall|i: int, j: int| 0 <= i < idata.len() && 0 <= j < trail implies #[trigger] value(
            m,
        )->0[i * trail + j] == tdata[index_of(idata[i]) * trail + j] by {
            lemma_gather_index(tdata, trail, idata, idata.len(), rows, i, j);
        }
    }
}

} // verus!
