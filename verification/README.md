# minml_core

A small lazy array library with a verified core. Arrays are built as a
graph of ops (add, mul, dot, ones, randint, gather, Dirichlet and
categorical sampling) and evaluated on demand; `vmap_apply` maps a function
over a batch axis and `jit` fuses chains of elementwise ops into one node.
Random numbers come from Threefry-2x32 behind JAX-style splittable keys.

Layout:

- `src/` — the library, written in Verus. Every function carries a
  contract: the value model of an Array graph (`array.rs`), the ops and the
  shapes they build (`ops.rs`), the evaluator (a node whose graph needs no float
  kernel keeps the words it was evaluated to for every handle that shares
  it; this sharing is not part of the proved contracts, which speak of the
  value each read gives),
  the transforms (`transforms.rs`), the kernel source generators
  (`codegen.rs`), the PRNG (`threefry.rs`, `prng.rs`), the integer kernels
  of the CPU backend (`cpu/`), and the argument planner shared by the
  language bindings' vmap (`binding.rs`). Element data is held as 32-bit
  words; floating-point kernels are supplied by the caller through the
  `FloatKernels` trait, whose contract (trusted: the kernels live in
  `app/`) says that a kernel that succeeds returns the kernels' answer to
  its request. The evaluator's contracts fix each request and the input
  words handed with it, and give the value of every graph in terms of
  those answers.
- `app/` — ordinary Rust around the library: the floating-point kernels of
  the CPU backend, the async readback surface, the default device, the
  error type with its messages, and the Python, Node.js and WebAssembly
  bindings.
- `tests/` — tests of the library on concrete values.
