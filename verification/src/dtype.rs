// Element types. Both are four bytes wide, so every buffer is stored as
// a sequence of 32-bit words: an Int32 element is its two's-complement
// word, a Float32 element is its IEEE-754 bit pattern.
use vstd::prelude::*;

verus! {

#[derive(Debug, Clone, Copy, PartialEq, Eq, Hash, Structural)]
pub enum DType {
    Float32,
    Int32,
}

/// Bytes per element.
pub open spec fn dtype_bytes_spec(t: DType) -> usize {
    4
}

pub fn dtype_bytes(t: DType) -> (r: usize)
    ensures
        r == dtype_bytes_spec(t),
{
    match t {
        DType::Float32 => 4,
        DType::Int32 => 4,
    }
}

impl DType {
    /// The name under which the element type is shown to users.
    pub fn name(&self) -> (s: &'static str)
        ensures
            *self == DType::Float32 ==> s@ == "Float32"@,
            *self == DType::Int32 ==> s@ == "Int32"@,
    {
        match self {
            DType::Float32 => "Float32",
            DType::Int32 => "Int32",
        }
    }
}

} // verus!
