// The per-op node of a lazy Array, and the interface through which the
// floating-point kernels are supplied to the evaluator.
use crate::error::MinmlError;
use crate::transforms::FusedExpr;
use vstd::prelude::*;

verus! {

/// An op node. Its job is to name the op; evaluation dispatches on the
/// output device (see `ops::check_backend`).
pub trait Primitive {
    fn name(&self) -> &'static str;
}

/// A floating-point kernel request: which kernel to run. The kernel's
/// operands are the input buffers handed along with it.
pub enum FloatOp {
    /// Elementwise sum of two Float32 buffers of `out_len` elements.
    Add,
    /// Elementwise product of two Float32 buffers of `out_len` elements.
    Mul,
    /// Sum of products of two Float32 buffers of equal length, into one element.
    Dot,
    /// The fused elementwise expression over the input buffers.
    FusedElementwise(FusedExpr),
    /// `batch` rows of `k` Dirichlet draws with concentrations given by
    /// input 0. `k0` already carries the Dirichlet tag; the random words of
    /// the draws are those of `cpu::random::tagged_draw`, at the counters of
    /// `cpu::random::dirichlet_counter`.
    DirichletSample { k0: u32, k1: u32, batch: usize, k: usize },
    /// For one categorical draw whose random word is `draw`: for each class
    /// of input 0 (the class weights), whether the draw falls below that
    /// class's cumulative weight (a nonzero word) or not (zero).
    CategoricalBelow { draw: u32 },
}

/// The floating-point kernels of the CPU backend, supplied by the caller
/// as an op's kernel is supplied by the implementor of an op. Verified code
/// never computes on floats: the evaluator hands each float kernel its
/// request, the words of the node's inputs and the expected output length.
pub trait FloatKernels {
    /// What the kernels compute for a request, given the input words and
    /// the output length. Kernels that do not say more leave it as some
    /// answer fixed by the kernels and the request alone: the kernels are
    /// deterministic.
    closed spec fn answer(&self, op: FloatOp, inputs: Seq<Seq<u32>>, out_len: nat) -> Option<Seq<u32>> {
        choose|r: Option<Seq<u32>>| fixed_answer(self, op, inputs, out_len, r)
    }

    /// Runs a kernel. When it succeeds, it returns the kernels' answer to
    /// the request; nothing is promised of when it fails.
    fn run(&self, op: &FloatOp, inputs: &[Vec<u32>], out_len: usize) -> (r: Result<
        Vec<u32>,
        MinmlError,
    >)
        ensures
            r matches Ok(v) ==> self.answer(
                *op,
                inputs@.map_values(|w: Vec<u32>| w@),
                out_len as nat,
            ) == Some(v@),
    ;
}

/// `r` may stand as the answer of `kernels` to a request: any answer may,
/// as long as it is the same each time the same kernels get the same
/// request.
pub open spec fn fixed_answer<K: ?Sized>(
    kernels: &K,
    op: FloatOp,
    inputs: Seq<Seq<u32>>,
    out_len: nat,
    r: Option<Seq<u32>>,
) -> bool {
    true
}

} // verus!
