// The library's error type.
use crate::device::Device;
use vstd::prelude::*;

verus! {

#[derive(Debug, Clone, PartialEq, Eq)]
pub enum MinmlError {
    ShapeMismatch,
    DeviceMismatch,
    DtypeMismatch,
    DataSize { got: usize, expected: usize },
    DotRequires1D,
    GatherIndicesNotInt32,
    GatherTableRank,
    GatherOob,
    DirichletAlphaNot1D,
    CategoricalProbsNot1D,
    ItemRequiresSize1,
    OpNotImplemented { op: &'static str, device: Device },
    BackendNotBuilt(&'static str),
    WebGpuNotInitialized,
    WebGpuInitFailed(String),
    WebGpuReadbackFailed,
    Vmap(&'static str),
    Other(String),
}

} // verus!
