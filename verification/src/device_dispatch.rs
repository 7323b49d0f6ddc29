// Per-device allocate / host-to-device / device-to-host. Only the CPU
// backend is built into this library; the GPU devices report their
// backend as not built.
use crate::cpu::backend::{
    CpuBuffer,
    allocate as cpu_allocate,
    bytes_of_words,
    size_mismatch_text,
    copy_buffer_to_host,
    copy_host_to_buffer,
    words_for,
};
use crate::device::Device;
use crate::error::MinmlError;
use vstd::prelude::*;

verus! {

/// Fails for a device whose backend is not built, naming that backend.
pub(crate) fn not_built(d: Device) -> (e: MinmlError)
    requires
        d != Device::Cpu,
    ensures
        e matches MinmlError::BackendNotBuilt(s) && (d == Device::WebGpu ==> s@ == "webgpu"@) && (d
            == Device::Cuda ==> s@ == "cuda"@),
{
    if d == Device::WebGpu {
        MinmlError::BackendNotBuilt("webgpu")
    } else {
        MinmlError::BackendNotBuilt("cuda")
    }
}

/// A zeroed buffer of `bytes` bytes on device `d`.
pub fn allocate(d: Device, bytes: usize) -> (r: Result<CpuBuffer, MinmlError>)
    ensures
        r is Ok <==> d == Device::Cpu,
        r matches Ok(b) ==> b.byte_size() == bytes && b@ == Seq::new(words_for(bytes), |i: int| 0u32),
        r matches Err(e) ==> e matches MinmlError::BackendNotBuilt(s) && (d == Device::WebGpu ==> s@
            == "webgpu"@) && (d == Device::Cuda ==> s@ == "cuda"@),
{
    match d {
        Device::Cpu => Ok(cpu_allocate(bytes)),
        _ => Err(not_built(d)),
    }
}

/// Copies host words into a buffer on device `d`.
pub fn h2d(d: Device, dst: &mut CpuBuffer, src: &[u32]) -> (r: Result<(), MinmlError>)
    ensures
        r is Ok <==> d == Device::Cpu && bytes_of_words(src@.len() as nat) <= old(dst).byte_size()
            && src@.len() <= old(dst)@.len(),
        r is Ok ==> final(dst)@ == src@ + old(dst)@.skip(src@.len() as int),
        r is Err ==> final(dst)@ == old(dst)@,
        d == Device::Cpu ==> (r matches Err(e) ==> e matches MinmlError::Other(m) && m@
            == size_mismatch_text("h2d"@, bytes_of_words(src@.len() as nat), old(dst).byte_size() as nat)),
        d != Device::Cpu ==> (r matches Err(e) && e matches MinmlError::BackendNotBuilt(s) && (d
            == Device::WebGpu ==> s@ == "webgpu"@) && (d == Device::Cuda ==> s@ == "cuda"@)),
        final(dst).byte_size() == old(dst).byte_size(),
{
    match d {
        Device::Cpu => copy_host_to_buffer(dst, src),
        _ => Err(not_built(d)),
    }
}

/// Copies the first words of a buffer on device `d` to the host.
pub fn d2h_sync(d: Device, src: &CpuBuffer, dst: &mut Vec<u32>) -> (r: Result<(), MinmlError>)
    ensures
        r is Ok <==> d == Device::Cpu && bytes_of_words(old(dst)@.len() as nat) <= src.byte_size()
            && old(dst)@.len() <= src@.len(),
        r is Ok ==> final(dst)@ == src@.take(old(dst)@.len() as int),
        r is Err ==> final(dst)@ == old(dst)@,
        d == Device::Cpu ==> (r matches Err(e) ==> e matches MinmlError::Other(m) && m@
            == size_mismatch_text("d2h"@, src.byte_size() as nat, bytes_of_words(old(dst)@.len() as nat))),
        d != Device::Cpu ==> (r matches Err(e) && e matches MinmlError::BackendNotBuilt(s) && (d
            == Device::WebGpu ==> s@ == "webgpu"@) && (d == Device::Cuda ==> s@ == "cuda"@)),
{
    match d {
        Device::Cpu => copy_buffer_to_host(src, dst),
        _ => Err(not_built(d)),
    }
}

} // verus!
