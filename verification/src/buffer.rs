// Backend memory, seen through its size in bytes and the device it lives on.
use crate::device::Device;
use vstd::prelude::*;

verus! {

pub trait Buffer {
    fn bytes(&self) -> usize;

    fn device(&self) -> Device;
}

} // verus!
