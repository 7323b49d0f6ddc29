// Devices an Array can live on, and the compact integer encoding used to
// keep the process-wide default device in a single atomic byte.
use vstd::prelude::*;

verus! {

#[derive(Debug, Clone, Copy, PartialEq, Eq, Hash, Structural)]
pub enum Device {
    Cpu,
    Cuda,
    WebGpu,
}

/// The byte that stands for a device.
pub open spec fn encode_spec(d: Device) -> u8 {
    match d {
        Device::Cpu => 0,
        Device::Cuda => 1,
        Device::WebGpu => 2,
    }
}

/// The device that a byte stands for; every byte other than 1 and 2 reads as the CPU.
pub open spec fn decode_spec(v: u8) -> Device {
    if v == 1 {
        Device::Cuda
    } else if v == 2 {
        Device::WebGpu
    } else {
        Device::Cpu
    }
}

pub fn encode(d: Device) -> (r: u8)
    ensures
        r == encode_spec(d),
{
    match d {
        Device::Cpu => 0,
        Device::Cuda => 1,
        Device::WebGpu => 2,
    }
}

pub fn decode(v: u8) -> (d: Device)
    ensures
        d == decode_spec(v),
{
    match v {
        1 => Device::Cuda,
        2 => Device::WebGpu,
        _ => Device::Cpu,
    }
}

/// Storing a device and reading it back gives the same device: decoding
/// undoes encoding, and distinct devices get distinct bytes.
pub proof fn lemma_decode_encode(d: Device, e: Device)
    ensures
        decode_spec(encode_spec(d)) == d,
        encode_spec(d) == encode_spec(e) ==> d == e,
{
}

/// The name of the backend that serves a GPU device.
pub open spec fn backend_name(d: Device) -> Seq<char> {
    match d {
        Device::WebGpu => "webgpu"@,
        Device::Cuda => "cuda"@,
        Device::Cpu => "cpu"@,
    }
}

impl Device {
    /// The name under which the device is shown to users.
    pub fn name(&self) -> (s: &'static str)
        ensures
            *self == Device::Cpu ==> s@ == "CPU"@,
            *self == Device::Cuda ==> s@ == "CUDA"@,
            *self == Device::WebGpu ==> s@ == "WebGPU"@,
    {
        match self {
            Device::Cpu => "CPU",
            Device::Cuda => "CUDA",
            Device::WebGpu => "WebGPU",
        }
    }
}

} // verus!
