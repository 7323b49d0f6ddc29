// CPU backend: host-memory buffers and the kernels that move or generate
// 32-bit words (the floating-point kernels are supplied by the caller
// through `FloatKernels`).
pub mod backend;
pub mod kernels;
pub mod random;
