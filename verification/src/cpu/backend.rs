// Host memory for the CPU backend: a zero-initialised run of 32-bit words,
// with the byte size it was allocated for.
use crate::buffer::Buffer;
use crate::codegen::{decimal, decimal_string};
use crate::device::Device;
use crate::error::MinmlError;
use vstd::prelude::*;

verus! {

pub struct CpuBuffer {
    data: Vec<u32>,
    bytes: usize,
}

/// Words needed to hold `bytes` bytes.
pub open spec fn words_for(bytes: usize) -> nat {
    if bytes % 4 == 0 {
        (bytes / 4) as nat
    } else {
        (bytes / 4 + 1) as nat
    }
}

impl View for CpuBuffer {
    type V = Seq<u32>;

    closed spec fn view(&self) -> Seq<u32> {
        self.data@
    }
}

impl CpuBuffer {
    /// The byte size the buffer was allocated for.
    pub closed spec fn byte_size(&self) -> usize {
        self.bytes
    }

    /// A zeroed buffer of `bytes` bytes.
    pub fn new(bytes: usize) -> (r: Self)
        ensures
            r.byte_size() == bytes,
            r@ == Seq::new(words_for(bytes), |i: int| 0u32),
    {
        let n: usize = if bytes % 4 == 0 {
            bytes / 4
        } else {
            bytes / 4 + 1
        };
        let mut data: Vec<u32> = Vec::new();
        let mut i: usize = 0;
        while i < n
            invariant
                i <= n,
                data@ == Seq::new(i as nat, |k: int| 0u32),
            decreases n - i,
        {
            data.push(0);
            i = i + 1;
            assert(data@ =~= Seq::new(i as nat, |k: int| 0u32));
        }
        CpuBuffer { data, bytes }
    }

    /// A buffer that holds exactly the given words.
    pub fn from_words(data: Vec<u32>) -> (r: Self)
        requires
            data@.len() * 4 <= usize::MAX,
        ensures
            r@ == data@,
            r.byte_size() == data@.len() * 4,
    {
        let bytes = data.len() * 4;
        CpuBuffer { data, bytes }
    }

    /// The words of the buffer.
    pub fn words(&self) -> (r: &Vec<u32>)
        ensures
            r@ == self@,
    {
        &self.data
    }

    /// Gives up the buffer and hands back its words.
    pub fn into_words(self) -> (r: Vec<u32>)
        ensures
            r@ == self@,
    {
        self.data
    }

    /// Number of words held.
    pub fn len(&self) -> (r: usize)
        ensures
            r == self@.len(),
    {
        self.data.len()
    }
}

impl Buffer for CpuBuffer {
    fn bytes(&self) -> (r: usize)
        ensures
            r == self.byte_size(),
    {
        self.bytes
    }

    fn device(&self) -> (d: Device)
        ensures
            d == Device::Cpu,
    {
        Device::Cpu
    }
}

/// A zeroed host buffer of `bytes` bytes.
pub fn allocate(bytes: usize) -> (r: CpuBuffer)
    ensures
        r.byte_size() == bytes,
        r@ == Seq::new(words_for(bytes), |i: int| 0u32),
{
    CpuBuffer::new(bytes)
}

/// The byte count of `n` words, saturated at `usize::MAX`.
pub open spec fn bytes_of_words(n: nat) -> nat {
    if n * 4 <= usize::MAX {
        n * 4
    } else {
        usize::MAX as nat
    }
}

/// The message of a size mismatch between a host slice and a buffer, with
/// both sizes in bytes.
pub open spec fn size_mismatch_text(what: Seq<char>, src: nat, dst: nat) -> Seq<char> {
    what + " size mismatch: src="@ + decimal(src) + " dst="@ + decimal(dst)
}

fn byte_count(words: usize) -> (r: usize)
    ensures
        r == bytes_of_words(words as nat),
{
    match words.checked_mul(4) {
        Some(b) => b,
        None => usize::MAX,
    }
}

fn size_mismatch_message(what: &str, src: usize, dst: usize) -> (s: String)
    ensures
        s@ == size_mismatch_text(what@, src as nat, dst as nat),
{
    let mut s = String::from_str(what);
    s.append(" size mismatch: src=");
    let a = decimal_string(src);
    s.append(a.as_str());
    s.append(" dst=");
    let b = decimal_string(dst);
    s.append(b.as_str());
    s
}

/// Copies `src` over the first words of `dst`; refuses a source larger
/// than the buffer.
pub fn copy_host_to_buffer(dst: &mut CpuBuffer, src: &[u32]) -> (r: Result<(), MinmlError>)
    ensures
        r is Ok <==> bytes_of_words(src@.len() as nat) <= old(dst).byte_size() && src@.len() <= old(
            dst,
        )@.len(),
        r is Ok ==> final(dst)@ == src@ + old(dst)@.skip(src@.len() as int),
        r is Err ==> final(dst)@ == old(dst)@,
        r matches Err(e) ==> e matches MinmlError::Other(m) && m@ == size_mismatch_text(
            "h2d"@,
            bytes_of_words(src@.len() as nat),
            old(dst).byte_size() as nat,
        ),
        final(dst).byte_size() == old(dst).byte_size(),
{
    let src_bytes = byte_count(src.len());
    if src_bytes > dst.bytes || src.len() > dst.data.len() {
        return Err(MinmlError::Other(size_mismatch_message("h2d", src_bytes, dst.bytes)));
    }
    let mut i: usize = 0;
    while i < src.len()
        invariant
            i <= src@.len() <= old(dst)@.len(),
            dst.data@.len() == old(dst)@.len(),
            dst.bytes == old(dst).bytes,
            forall|k: int| 0 <= k < i ==> dst.data@[k] == src@[k],
            forall|k: int| i <= k < dst.data@.len() ==> dst.data@[k] == old(dst)@[k],
        decreases src@.len() - i,
    {
        dst.data.set(i, src[i]);
        i = i + 1;
    }
    assert(dst.data@ =~= src@ + old(dst)@.skip(src@.len() as int));
    Ok(())
}

/// Fills `dst` with the first words of the buffer; refuses a destination
/// larger than the buffer.
pub fn copy_buffer_to_host(src: &CpuBuffer, dst: &mut Vec<u32>) -> (r: Result<(), MinmlError>)
    ensures
        r is Ok <==> bytes_of_words(old(dst)@.len() as nat) <= src.byte_size() && old(dst)@.len()
            <= src@.len(),
        r is Ok ==> final(dst)@ == src@.take(old(dst)@.len() as int),
        r is Err ==> final(dst)@ == old(dst)@,
        r matches Err(e) ==> e matches MinmlError::Other(m) && m@ == size_mismatch_text(
            "d2h"@,
            src.byte_size() as nat,
            bytes_of_words(old(dst)@.len() as nat),
        ),
{
    let dst_bytes = byte_count(dst.len());
    if dst_bytes > src.bytes || dst.len() > src.data.len() {
        return Err(MinmlError::Other(size_mismatch_message("d2h", src.bytes, dst_bytes)));
    }
    let mut i: usize = 0;
    while i < dst.len()
        invariant
            i <= dst@.len() == old(dst)@.len() <= src@.len(),
            forall|k: int| 0 <= k < i ==> dst@[k] == src@[k],
        decreases dst@.len() - i,
    {
        dst.set(i, src.data[i]);
        i = i + 1;
    }
    assert(dst@ =~= src@.take(old(dst)@.len() as int));
    Ok(())
}

} // verus!
