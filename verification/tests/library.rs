// Scenarios and laws of the library on concrete values.
use minml_core::array::{categorical_request, float_request, product_after_first, Array};
use minml_core::binding::{plan_vmap_call, ArgLength, VmapArgKind, VmapPlanError};
use minml_core::codegen::{build_cuda_c, build_wgsl, decimal_string, input_names, render_str};
use minml_core::cpu::backend::{copy_buffer_to_host, copy_host_to_buffer, CpuBuffer};
use minml_core::cpu::kernels::{gather as gather_kernel, ones as ones_kernel};
use minml_core::cpu::random::{categorical_pick, dirichlet_counter, randint as randint_kernel, tagged_draw, TAG_CATEGORICAL_U, TAG_RANDINT};
use minml_core::device::{decode, encode, Device};
use minml_core::device_dispatch::{allocate, d2h_sync, h2d};
use minml_core::dtype::{dtype_bytes, DType};
use minml_core::error::MinmlError;
use minml_core::oneshot::{futures_channel, oneshot, Recv};
use minml_core::ops::{
    add, categorical_sample, check_backend, dirichlet_sample, dot, gather, mul, ones, randint,
    Categorical, Dirichlet, Normal, Prim,
};
use minml_core::primitive::{FloatKernels, FloatOp, Primitive};
use minml_core::prng::PRNGKey;
use minml_core::shape::{checked_elems, product};
use minml_core::threefry::{threefry_2x32, threefry_u32};
use minml_core::transforms::{fuse_array, jit, slice_axis0, stack, vmap_apply, FusedExpr};
use std::sync::Arc;

struct TestKernels;

fn fl(w: u32) -> f32 {
    f32::from_bits(w)
}

fn eval_expr(e: &FusedExpr, inputs: &[Vec<u32>], i: usize) -> f32 {
    match e {
        FusedExpr::Input(k) => fl(inputs[*k][i]),
        FusedExpr::Add(l, r) => eval_expr(l, inputs, i) + eval_expr(r, inputs, i),
        FusedExpr::Mul(l, r) => eval_expr(l, inputs, i) * eval_expr(r, inputs, i),
    }
}

impl FloatKernels for TestKernels {
    fn run(&self, op: &FloatOp, inputs: &[Vec<u32>], out_len: usize) -> Result<Vec<u32>, MinmlError> {
        match op {
            FloatOp::Add => Ok((0..out_len).map(|i| (fl(inputs[0][i]) + fl(inputs[1][i])).to_bits()).collect()),
            FloatOp::Mul => Ok((0..out_len).map(|i| (fl(inputs[0][i]) * fl(inputs[1][i])).to_bits()).collect()),
            FloatOp::Dot => {
                let mut s = 0.0f32;
                for i in 0..inputs[0].len() {
                    s += fl(inputs[0][i]) * fl(inputs[1][i]);
                }
                Ok(vec![s.to_bits()])
            }
            FloatOp::FusedElementwise(e) => Ok((0..out_len).map(|i| eval_expr(e, inputs, i).to_bits()).collect()),
            _ => Err(MinmlError::Other("not provided by the test kernels".to_string())),
        }
    }
}

/// Kernels that hand back a buffer of the wrong length.
struct ShortKernels;

impl FloatKernels for ShortKernels {
    fn run(&self, _op: &FloatOp, _inputs: &[Vec<u32>], _out_len: usize) -> Result<Vec<u32>, MinmlError> {
        Ok(Vec::new())
    }
}

fn bits(v: &[f32]) -> Vec<u32> {
    v.iter().map(|x| x.to_bits()).collect()
}

fn floats(a: &Array) -> Vec<f32> {
    a.tolist_words(&TestKernels).unwrap().into_iter().map(f32::from_bits).collect()
}

fn farr(v: &[f32], shape: Vec<usize>) -> Array {
    Array::from_f32_bits_with_shape(bits(v), shape, Device::Cpu).unwrap()
}

// ---- Threefry ----

#[test]
fn threefry_known_answers() {
    assert_eq!(threefry_2x32(0, 0, 0, 0), (0x6b200159, 0x99ba4efe));
    assert_eq!(
        threefry_2x32(0xffffffff, 0xffffffff, 0xffffffff, 0xffffffff),
        (0x1cb996fc, 0xbb002be7)
    );
    assert_eq!(
        threefry_2x32(0x13198a2e, 0x03707344, 0x243f6a88, 0x85a308d3),
        (0xc4923a9c, 0x483df7a0)
    );
    assert_eq!(threefry_u32(0x13198a2e, 0x03707344, 0x243f6a88), threefry_2x32(0x13198a2e, 0x03707344, 0x243f6a88, 0).0);
}

// ---- Devices and element types ----

#[test]
fn device_encoding_roundtrip() {
    for d in [Device::Cpu, Device::Cuda, Device::WebGpu] {
        assert_eq!(decode(encode(d)), d);
    }
    assert_eq!(encode(Device::Cuda), 1);
    assert_eq!(decode(7), Device::Cpu);
    assert_eq!(Device::WebGpu.name(), "WebGPU");
    assert_eq!(DType::Int32.name(), "Int32");
    assert_eq!(dtype_bytes(DType::Float32), 4);
    assert_eq!(dtype_bytes(DType::Int32), 4);
}

// ---- PRNG keys ----

#[test]
fn prng_keys_come_from_threefry() {
    let k = PRNGKey::from_seed(7);
    let (a, b) = threefry_2x32(7, 0xCAFEBABE, 0, 0);
    assert_eq!((k.k0(), k.k1()), (a, b));
    let kids = k.split(4);
    for (i, c) in kids.iter().enumerate() {
        assert_eq!((c.k0(), c.k1()), threefry_2x32(a, b, i as u32, 0xC0FFEE));
    }
    // Asking for more children keeps the earlier ones.
    assert_eq!(&k.split(6)[..4], &kids[..]);
    assert_eq!(PRNGKey::default(), PRNGKey::new(0, 0));
    assert!(k.split(0).is_empty());
}

// ---- Shapes ----

#[test]
fn shape_products() {
    assert_eq!(product(&[2, 3, 4]), 24);
    assert_eq!(product(&[]), 1);
    assert_eq!(checked_elems(&[2, 3]), Some(6));
    assert_eq!(checked_elems(&[usize::MAX, 2]), None);
    assert_eq!(checked_elems(&[usize::MAX / 2]), None);
}

// ---- Buffers and devices ----

#[test]
fn cpu_buffer_copies() {
    let mut b = CpuBuffer::new(10);
    assert_eq!(b.words().len(), 3);
    copy_host_to_buffer(&mut b, &[7, 8]).unwrap();
    assert_eq!(b.words(), &vec![7, 8, 0]);
    assert_eq!(
        copy_host_to_buffer(&mut b, &[1, 2, 3, 4]),
        Err(MinmlError::Other("h2d size mismatch: src=16 dst=10".to_string()))
    );
    // Sizes are compared in bytes: three words do not fit in ten bytes.
    assert_eq!(
        copy_host_to_buffer(&mut b, &[1, 2, 3]),
        Err(MinmlError::Other("h2d size mismatch: src=12 dst=10".to_string()))
    );
    assert_eq!(b.words(), &vec![7, 8, 0]);
    let mut dst = vec![0u32; 2];
    copy_buffer_to_host(&b, &mut dst).unwrap();
    assert_eq!(dst, vec![7, 8]);
    let mut big = vec![0u32; 4];
    assert_eq!(
        copy_buffer_to_host(&b, &mut big),
        Err(MinmlError::Other("d2h size mismatch: src=10 dst=16".to_string()))
    );
}

#[test]
fn device_dispatch_backends() {
    assert!(matches!(allocate(Device::WebGpu, 8), Err(MinmlError::BackendNotBuilt("webgpu"))));
    assert!(matches!(allocate(Device::Cuda, 8), Err(MinmlError::BackendNotBuilt("cuda"))));
    let mut b = allocate(Device::Cpu, 8).unwrap();
    h2d(Device::Cpu, &mut b, &[5, 6]).unwrap();
    let mut out = vec![0u32; 1];
    d2h_sync(Device::Cpu, &b, &mut out).unwrap();
    assert_eq!(out, vec![5]);
    assert!(matches!(h2d(Device::Cuda, &mut b, &[1]), Err(MinmlError::BackendNotBuilt("cuda"))));
}

// ---- Constructors ----

#[test]
fn constructor_errors() {
    assert!(matches!(
        Array::from_f32_bits_with_shape(vec![0; 5], vec![2, 3], Device::Cpu),
        Err(MinmlError::DataSize { got: 5, expected: 6 })
    ));
    assert!(matches!(
        Array::from_i32_1d(vec![1, 2], Device::WebGpu),
        Err(MinmlError::BackendNotBuilt("webgpu"))
    ));
    let a = Array::from_i32_with_shape(vec![-1, 2, 3, 4], vec![2, 2], Device::Cpu).unwrap();
    assert_eq!(a.shape(), &[2, 2]);
    assert_eq!(a.size(), 4);
    assert_eq!(a.dtype(), DType::Int32);
    assert!(a.evaluated());
    assert_eq!(a.tolist_int_sync(&TestKernels).unwrap(), vec![-1, 2, 3, 4]);
    assert_eq!(a.with_batch_axis(0).batch_axis(), Some(0));
    assert_eq!(a.with_batch_axis(0).strip_batch_axis().batch_axis(), None);
}

// ---- Op builders ----

#[test]
fn builder_errors() {
    let a = farr(&[1.0, 2.0, 3.0], vec![3]);
    let b = farr(&[1.0, 2.0], vec![2]);
    assert!(matches!(add(&a, &b), Err(MinmlError::ShapeMismatch)));
    assert!(matches!(mul(&a, &b), Err(MinmlError::ShapeMismatch)));
    let g = ones(vec![3], DType::Float32, Device::WebGpu);
    assert!(matches!(add(&a, &g), Err(MinmlError::DeviceMismatch)));
    let m = farr(&[1.0, 2.0, 3.0, 4.0], vec![2, 2]);
    assert!(matches!(dot(&m, &m), Err(MinmlError::DotRequires1D)));
    assert!(matches!(gather(&m, &m), Err(MinmlError::GatherIndicesNotInt32)));
    let scalar = Array::from_f32_bits_with_shape(bits(&[1.0]), vec![], Device::Cpu).unwrap();
    let idx = Array::from_i32_1d(vec![0], Device::Cpu).unwrap();
    assert!(matches!(gather(&scalar, &idx), Err(MinmlError::GatherTableRank)));
    assert!(matches!(dirichlet_sample(1, 2, &m, vec![3]), Err(MinmlError::DirichletAlphaNot1D)));
    assert!(matches!(categorical_sample(1, 2, &m, vec![3]), Err(MinmlError::CategoricalProbsNot1D)));
    match Normal::new().sample(PRNGKey::from_seed(1), vec![2]) {
        Err(MinmlError::Other(s)) => assert_eq!(s, "Normal::sample: not implemented yet"),
        _ => panic!("Normal::sample must fail"),
    }
}

#[test]
fn sample_builders_shapes() {
    let alpha = farr(&[1.0, 2.0, 3.0], vec![3]);
    let key = PRNGKey::from_seed(3);
    let d = Dirichlet::new(alpha).sample(key, vec![4, 2]).unwrap();
    assert_eq!(d.shape(), &[4, 2, 3]);
    assert_eq!(d.dtype(), DType::Float32);
    let probs = farr(&[0.5, 0.5], vec![2]);
    let c = Categorical::new(probs).sample(key, vec![5]).unwrap();
    assert_eq!(c.shape(), &[5]);
    assert_eq!(c.dtype(), DType::Int32);
    // The sampling kernels are floating-point kernels: the evaluator hands them on.
    assert!(matches!(c.tolist_int_sync(&TestKernels), Err(MinmlError::Other(_))));
}

// ---- Evaluation ----

#[test]
fn evaluation_errors_per_device() {
    // The output is allocated on its device first, and no GPU backend is built.
    let o = ones(vec![2], DType::Int32, Device::WebGpu);
    assert!(matches!(o.tolist_int_sync(&TestKernels), Err(MinmlError::BackendNotBuilt("webgpu"))));
    let a = ones(vec![2], DType::Float32, Device::Cuda);
    let s = add(&a, &a).unwrap();
    // The inputs are evaluated first, and the first allocation fails.
    assert!(matches!(s.tolist_words(&TestKernels), Err(MinmlError::BackendNotBuilt("cuda"))));
    assert!(matches!(check_backend(&Prim::Add(minml_core::ops::AddPrim), Device::Cuda),
        Err(MinmlError::BackendNotBuilt("cuda"))));
    assert!(matches!(check_backend(&Prim::Gather(minml_core::ops::GatherPrim), Device::Cuda),
        Err(MinmlError::OpNotImplemented { op: "gather", device: Device::Cuda })));
    let one = farr(&[2.0, 3.0], vec![2]);
    assert!(matches!(one.item_word_sync(&TestKernels), Err(MinmlError::ItemRequiresSize1)));
    // A float kernel that returns the wrong number of elements is refused.
    let p = add(&one, &one).unwrap();
    assert!(matches!(p.tolist_words(&ShortKernels), Err(MinmlError::Other(_))));
}

/// Test kernels that count the kernels they run.
struct CountingKernels {
    runs: std::cell::Cell<usize>,
}

impl FloatKernels for CountingKernels {
    fn run(&self, op: &FloatOp, inputs: &[Vec<u32>], out_len: usize) -> Result<Vec<u32>, MinmlError> {
        self.runs.set(self.runs.get() + 1);
        TestKernels.run(op, inputs, out_len)
    }
}

#[test]
fn clones_share_the_evaluation() {
    // An integer graph: every handle of a computed node sees it evaluated.
    let r = randint(9, 10, 0, 3, vec![4], Device::Cpu);
    let table = Array::from_i32_1d(vec![10, 20, 30], Device::Cpu).unwrap();
    let mut g = gather(&table, &r).unwrap();
    let twin = g.clone();
    assert!(!twin.evaluated() && !r.evaluated());
    g.eval(&TestKernels).unwrap();
    assert!(g.holds_words());
    assert!(twin.evaluated() && !twin.holds_words());
    assert!(r.evaluated());
    assert_eq!(twin.tolist_int_sync(&TestKernels).unwrap(), g.tolist_int_sync(&TestKernels).unwrap());
}

#[test]
fn float_nodes_are_computed_once_per_evaluation() {
    let host = CountingKernels { runs: std::cell::Cell::new(0) };
    let x = farr(&[1.0, 2.0], vec![2]);
    let xy = add(&x, &x).unwrap();
    let mut d = dot(&xy, &xy).unwrap();
    let twin = d.clone();
    d.eval(&host).unwrap();
    // The input reached along two paths is computed once.
    assert_eq!(host.runs.get(), 2);
    assert!(d.holds_words());
    // What float kernels answer depends on the kernels handed in, so a
    // clone computes again with its own.
    assert!(!twin.evaluated());
    assert_eq!(twin.tolist_words(&host).unwrap(), vec![20.0f32.to_bits()]);
    assert_eq!(host.runs.get(), 4);
}

#[test]
fn gather_over_a_float_result() {
    let x = farr(&[1.0, 2.0, 3.0], vec![3]);
    let table = add(&x, &x).unwrap();
    let idx = Array::from_i32_1d(vec![2, 0], Device::Cpu).unwrap();
    let g = gather(&table, &idx).unwrap();
    assert_eq!(g.tolist_words(&TestKernels).unwrap(), bits(&[6.0, 2.0]));
    // A float node on a device without a backend fails there.
    let w = ones(vec![2], DType::Float32, Device::WebGpu);
    let s = add(&w, &w).unwrap();
    assert!(matches!(s.tolist_words(&TestKernels), Err(MinmlError::BackendNotBuilt(_))));
}

#[test]
fn eval_in_place() {
    let x = farr(&[1.0, 2.0], vec![2]);
    let mut s = add(&x, &x).unwrap();
    assert!(!s.evaluated());
    s.eval(&TestKernels).unwrap();
    assert!(s.evaluated());
    assert_eq!(floats(&s), vec![2.0, 4.0]);
    // Evaluating again leaves it as it is.
    s.eval(&TestKernels).unwrap();
    assert_eq!(floats(&s), vec![2.0, 4.0]);
}

#[test]
fn ones_values() {
    let f = ones(vec![2, 2], DType::Float32, Device::Cpu);
    assert_eq!(f.tolist_words(&TestKernels).unwrap(), vec![0x3F80_0000; 4]);
    assert_eq!(ones_kernel(DType::Int32, 3), vec![1, 1, 1]);
    let empty = ones(vec![0, 5], DType::Int32, Device::Cpu);
    assert_eq!(empty.tolist_int_sync(&TestKernels).unwrap(), Vec::<i32>::new());
}

#[test]
fn randint_values() {
    let r = randint(9, 10, -5, 5, vec![8], Device::Cpu);
    let v = r.tolist_int_sync(&TestKernels).unwrap();
    for (i, x) in v.iter().enumerate() {
        let bits = threefry_u32(9 ^ TAG_RANDINT, 10, i as u32);
        assert_eq!(*x, -5 + (bits % 10) as i32);
    }
    // The widest range does not overflow.
    let w = randint_kernel(1, 2, i32::MIN, i32::MAX, 16).unwrap();
    for x in w {
        assert!((x as i32) < i32::MAX);
    }
    let empty = randint(1, 2, 3, 3, vec![4], Device::Cpu);
    match empty.tolist_int_sync(&TestKernels) {
        Err(MinmlError::Other(s)) => assert_eq!(s, "randint: high <= low"),
        _ => panic!("an empty range must fail"),
    }
}

#[test]
fn gather_values_and_bounds() {
    assert_eq!(gather_kernel(&[1, 2, 3, 4, 5, 6], 3, 2, &[1, 1, 0]).unwrap(), vec![3, 4, 3, 4, 1, 2]);
    assert!(matches!(gather_kernel(&[1, 2], 1, 2, &[1]), Err(MinmlError::GatherOob)));
    assert!(matches!(gather_kernel(&[1, 2], 1, 2, &[(-1i32) as u32]), Err(MinmlError::GatherOob)));
    let table = Array::from_i32_with_shape(vec![1, 2, 3, 4], vec![2, 2], Device::Cpu).unwrap();
    let idx = Array::from_i32_with_shape(vec![1, 0, 1, 1], vec![2, 2], Device::Cpu).unwrap();
    let g = gather(&table, &idx).unwrap();
    assert_eq!(g.shape(), &[2, 2, 2]);
    assert_eq!(g.tolist_int_sync(&TestKernels).unwrap(), vec![3, 4, 1, 2, 3, 4, 3, 4]);
    let bad = Array::from_i32_1d(vec![2], Device::Cpu).unwrap();
    let g2 = gather(&table, &bad).unwrap();
    assert!(matches!(g2.tolist_int_sync(&TestKernels), Err(MinmlError::GatherOob)));
}

#[test]
fn shared_subgraph_values() {
    let x = farr(&[1.0, 2.0, 3.0], vec![3]);
    let y = add(&x, &x).unwrap();
    let z = mul(&y, &y).unwrap();
    assert_eq!(floats(&z), vec![4.0, 16.0, 36.0]);
}

// ---- Transforms ----

#[test]
fn slice_stack_laws() {
    let a = Array::from_i32_with_shape(vec![1, 2, 3, 4, 5, 6], vec![3, 1, 2], Device::Cpu).unwrap();
    let parts = slice_axis0(&a, &TestKernels).unwrap();
    assert_eq!(parts.len(), 3);
    assert_eq!(parts[1].shape(), &[1, 2]);
    assert_eq!(parts[2].tolist_int_sync(&TestKernels).unwrap(), vec![5, 6]);
    let back = stack(&parts, &TestKernels).unwrap();
    assert_eq!(back.shape(), a.shape());
    assert_eq!(back.tolist_int_sync(&TestKernels).unwrap(), vec![1, 2, 3, 4, 5, 6]);
    // A lazy input is evaluated before slicing.
    let r = randint(5, 6, 0, 100, vec![2, 3], Device::Cpu);
    let rows = slice_axis0(&r, &TestKernels).unwrap();
    let all = r.tolist_int_sync(&TestKernels).unwrap();
    assert_eq!(rows[1].tolist_int_sync(&TestKernels).unwrap(), all[3..].to_vec());
}

#[test]
fn slice_stack_errors() {
    let s = Array::from_i32_with_shape(vec![1], vec![], Device::Cpu).unwrap();
    match slice_axis0(&s, &TestKernels) {
        Err(MinmlError::Other(m)) => assert_eq!(m, "slice_axis0: cannot slice a scalar"),
        _ => panic!(),
    }
    let g = ones(vec![2], DType::Int32, Device::WebGpu);
    match slice_axis0(&g, &TestKernels) {
        Err(MinmlError::Other(m)) => assert_eq!(m, "slice_axis0: CPU only for now"),
        _ => panic!(),
    }
    match stack(&[], &TestKernels) {
        Err(MinmlError::Other(m)) => assert_eq!(m, "stack: empty input"),
        _ => panic!(),
    }
    let a = Array::from_i32_1d(vec![1, 2], Device::Cpu).unwrap();
    let b = Array::from_i32_1d(vec![1], Device::Cpu).unwrap();
    match stack(&[a.clone(), b], &TestKernels) {
        Err(MinmlError::Other(m)) => assert_eq!(m, "stack: shape mismatch"),
        _ => panic!(),
    }
    let f = farr(&[1.0, 2.0], vec![2]);
    match stack(&[a, f], &TestKernels) {
        Err(MinmlError::Other(m)) => assert_eq!(m, "stack: dtype mismatch"),
        _ => panic!(),
    }
    assert!(slice_axis0(&Array::from_i32_with_shape(vec![], vec![0, 3], Device::Cpu).unwrap(), &TestKernels)
        .unwrap()
        .is_empty());
}

#[test]
fn vmap_errors_and_unbatched_args() {
    let xs = Array::from_i32_with_shape(vec![1, 2, 3, 4], vec![2, 2], Device::Cpu).unwrap();
    let c = Array::from_i32_1d(vec![9, 9], Device::Cpu).unwrap();
    let mut f = |_b: usize, args: &[Array]| -> Result<Vec<Array>, MinmlError> { Ok(vec![args[1].clone(), args[0].clone()]) };
    let out = vmap_apply(2, &[xs.clone(), c.clone()], &[0, -1], &mut f, &TestKernels).unwrap();
    assert_eq!(out.len(), 2);
    assert_eq!(out[0].tolist_int_sync(&TestKernels).unwrap(), vec![9, 9, 9, 9]);
    assert_eq!(out[1].tolist_int_sync(&TestKernels).unwrap(), vec![1, 2, 3, 4]);
    let mut g = |_b: usize, args: &[Array]| -> Result<Vec<Array>, MinmlError> { Ok(vec![args[0].clone()]) };
    assert!(matches!(vmap_apply(2, &[xs.clone()], &[0, 0], &mut g, &TestKernels), Err(MinmlError::Vmap("args/in_axes size mismatch"))));
    assert!(matches!(vmap_apply(2, &[xs.clone()], &[1], &mut g, &TestKernels), Err(MinmlError::Vmap("only axis 0 supported"))));
    assert!(matches!(vmap_apply(3, &[xs.clone()], &[0], &mut g, &TestKernels), Err(MinmlError::Vmap("batched dims disagree"))));
    assert!(matches!(vmap_apply(0, &[c.clone()], &[-1], &mut g, &TestKernels), Err(MinmlError::Vmap("N=0"))));
    let mut h = |b: usize, args: &[Array]| -> Result<Vec<Array>, MinmlError> {
        if b == 0 { Ok(vec![args[0].clone()]) } else { Ok(vec![]) }
    };
    assert!(matches!(vmap_apply(2, &[xs], &[0], &mut h, &TestKernels), Err(MinmlError::Vmap("leaf count varies across iterations"))));
}

#[test]
fn jit_fuses_chains() {
    let x = farr(&[1.0, 2.0, 3.0], vec![3]);
    let y = farr(&[4.0, 5.0, 6.0], vec![3]);
    let mut f = |args: &[Array]| -> Result<Vec<Array>, MinmlError> {
        let xy = mul(&args[0], &args[1])?;
        Ok(vec![add(&xy, &args[0])?, args[1].clone()])
    };
    let out = jit(&[x.clone(), y.clone()], &mut f).unwrap();
    assert_eq!(floats(&out[0]), vec![5.0, 12.0, 21.0]);
    assert!(out[1].evaluated());
    match out[0].lazy_state() {
        Some((Prim::FusedElementwise(p), ins)) => {
            // x appears twice in the expression but takes one input slot.
            assert_eq!(ins.len(), 2);
            assert_eq!(p.name(), "fused_elementwise");
        }
        _ => panic!("expected a fused node"),
    }
    // x * x fuses over one input.
    let sq = fuse_array(&mul(&x, &x).unwrap());
    match sq.lazy_state() {
        Some((Prim::FusedElementwise(_), ins)) => assert_eq!(ins.len(), 1),
        _ => panic!("expected a fused node"),
    }
    assert_eq!(floats(&sq), vec![1.0, 4.0, 9.0]);
    // A dot is not fused; an evaluated array comes back as it is.
    let d = fuse_array(&dot(&x, &y).unwrap());
    assert!(matches!(d.lazy_state(), Some((Prim::Dot(_), _))));
    assert!(fuse_array(&x).evaluated());
}

// ---- Source generation ----

#[test]
fn codegen_text() {
    assert_eq!(decimal_string(0), "0");
    assert_eq!(decimal_string(7), "7");
    assert_eq!(decimal_string(10), "10");
    assert_eq!(decimal_string(12345), "12345");
    assert_eq!(input_names(3), vec!["in0", "in1", "in2"]);
    let e = FusedExpr::Add(
        Arc::new(FusedExpr::Input(0)),
        Arc::new(FusedExpr::Mul(Arc::new(FusedExpr::Input(1)), Arc::new(FusedExpr::Input(0)))),
    );
    assert_eq!(render_str(&e, &input_names(2)), "(in0[i] + (in1[i] * in0[i]))");
    let wgsl = build_wgsl(&e, 2);
    assert_eq!(
        wgsl,
        "@group(0) @binding(0) var<storage, read> in0 : array<f32>;\n\
         @group(0) @binding(1) var<storage, read> in1 : array<f32>;\n\
         @group(0) @binding(2) var<storage, read_write> out : array<f32>;\n\n\
         @compute @workgroup_size(64)\n\
         fn main(@builtin(global_invocation_id) gid : vec3<u32>) {\n  let i = gid.x;\n  if (i < arrayLength(&out)) {\n    out[i] = (in0[i] + (in1[i] * in0[i]));\n  }\n}\n"
    );
    let cu = build_cuda_c(&e, 2, "k");
    assert_eq!(
        cu,
        "extern \"C\" __global__\nvoid k(const float* __restrict__ in0, const float* __restrict__ in1, float* __restrict__ out, unsigned int n) {\n    unsigned int i = blockIdx.x * blockDim.x + threadIdx.x;\n    if (i < n) out[i] = (in0[i] + (in1[i] * in0[i]));\n}\n"
    );
}

// ---- Binding-level vmap plans ----

#[test]
fn vmap_call_plans() {
    let kinds = vec![
        VmapArgKind::Other { len: ArgLength::Missing },
        VmapArgKind::Array { first_dim: Some(4) },
        VmapArgKind::Other { len: ArgLength::Len(9) },
        VmapArgKind::Array { first_dim: None },
        VmapArgKind::Other { len: ArgLength::NotANumber },
    ];
    let p = plan_vmap_call(&[-1, 0, 0, -1, -1], &kinds).unwrap();
    assert_eq!(p.batch_n, 4);
    assert_eq!(p.array_slot, vec![-1, 0, -1, 1, -1]);
    assert_eq!(p.array_axes, vec![0, -1]);
    let p2 = plan_vmap_call(&[-1, -1, 0, 0, 0], &kinds).unwrap();
    assert_eq!(p2.batch_n, 9);
    assert!(matches!(plan_vmap_call(&[0], &kinds), Err(VmapPlanError::Message("vmap: in_axes length != args length"))));
    assert!(matches!(plan_vmap_call(&[-1, -1, -1, -1, -1], &kinds), Err(VmapPlanError::Message("vmap: no batched inputs"))));
    assert!(matches!(plan_vmap_call(&[-1, 1, 0, 0, 0], &kinds), Err(VmapPlanError::Message("vmap: only axis 0 supported on Arrays"))));
    assert!(matches!(plan_vmap_call(&[-1, -1, -1, 0, 0], &kinds), Err(VmapPlanError::Message("vmap: cannot batch over a scalar"))));
    assert!(matches!(plan_vmap_call(&[0, 0, 0, 0, 0], &kinds), Err(VmapPlanError::NoLength { arg: 0 })));
    assert!(matches!(plan_vmap_call(&[-1, -1, -1, -1, 0], &kinds), Err(VmapPlanError::LengthNotANumber { arg: 4 })));
}

// ---- One-shot slot ----

#[test]
fn oneshot_send_then_poll() {
    let mut s = oneshot::<u32>();
    let (r, wake) = s.send(7);
    assert_eq!(r, Ok(()));
    assert!(!wake);
    assert!(matches!(s.poll(), Recv::Ready(Ok(7))));
    // The value is handed out once; the next poll waits again.
    assert!(matches!(s.poll(), Recv::Pending));
}

#[test]
fn oneshot_poll_then_send_wakes() {
    let mut s = futures_channel::<u32>();
    assert!(matches!(s.poll(), Recv::Pending));
    let (r, wake) = s.send(9);
    assert_eq!(r, Ok(()));
    assert!(wake);
    assert!(matches!(s.poll(), Recv::Ready(Ok(9))));
}

#[test]
fn categorical_pick_first_below_or_last() {
    assert_eq!(categorical_pick(&[0, 1, 1]), 1);
    assert_eq!(categorical_pick(&[1]), 0);
    assert_eq!(categorical_pick(&[0, 0, 0]), 2);
    assert_eq!(categorical_pick(&[0, 0, 7, 0]), 2);
}

#[test]
fn jit_passes_the_traced_error_on() {
    let mut f = |_a: &[Array]| -> Result<Vec<Array>, MinmlError> { Err(MinmlError::Vmap("traced")) };
    assert!(matches!(jit(&[], &mut f), Err(MinmlError::Vmap("traced"))));
}

#[test]
fn same_node_only_for_one_allocation() {
    let a = farr(&[1.0, 2.0], vec![2]);
    let b = farr(&[1.0, 2.0], vec![2]);
    assert!(a.same_node(&a.clone()));
    // Equal contents in two allocations are two nodes.
    assert!(!a.same_node(&b));
    // A batch-axis tag makes a different array of the same node.
    assert!(!a.same_node(&a.with_batch_axis(0)));
}

#[test]
fn vmap_passes_the_callable_error_on() {
    let xs = Array::from_i32_with_shape(vec![1, 2, 3, 4], vec![2, 2], Device::Cpu).unwrap();
    let mut calls = 0usize;
    let mut f = |b: usize, args: &[Array]| -> Result<Vec<Array>, MinmlError> {
        calls += 1;
        if b == 0 { Ok(vec![args[0].clone()]) } else { Err(MinmlError::GatherOob) }
    };
    assert!(matches!(vmap_apply(2, &[xs], &[0], &mut f, &TestKernels), Err(MinmlError::GatherOob)));
    assert_eq!(calls, 2);
    let scalar = Array::from_i32_with_shape(vec![5], vec![], Device::Cpu).unwrap();
    let mut g = |_b: usize, args: &[Array]| -> Result<Vec<Array>, MinmlError> { Ok(vec![args[0].clone()]) };
    assert!(matches!(vmap_apply(1, &[scalar], &[0], &mut g, &TestKernels), Err(MinmlError::Vmap("cannot batch over a scalar"))));
}

#[test]
fn product_after_first_of_the_empty_shape() {
    assert_eq!(product_after_first(&[3, 2, 4]), 8);
    assert_eq!(product_after_first(&[5]), 1);
    assert_eq!(product_after_first(&[]), 1);
}

// A host whose categorical comparison answers the same for every class, and
// which records the random words it is handed.
struct FlagKernels(u32, std::cell::RefCell<Vec<u32>>);

impl FloatKernels for FlagKernels {
    fn run(&self, op: &FloatOp, _inputs: &[Vec<u32>], out_len: usize) -> Result<Vec<u32>, MinmlError> {
        match op {
            FloatOp::CategoricalBelow { draw } => {
                self.1.borrow_mut().push(*draw);
                Ok(vec![self.0; out_len])
            }
            _ => Err(MinmlError::Other("not provided".to_string())),
        }
    }
}

#[test]
fn categorical_picks_from_the_comparisons() {
    let probs = farr(&[0.1, 0.7, 0.2], vec![3]);
    let s = categorical_sample(1, 2, &probs, vec![4]).unwrap();
    let never = FlagKernels(0, std::cell::RefCell::new(Vec::new()));
    assert_eq!(s.tolist_int_sync(&never).unwrap(), vec![2, 2, 2, 2]);
    // The picks follow the kernels that are handed in.
    let always = FlagKernels(1, std::cell::RefCell::new(Vec::new()));
    assert_eq!(s.tolist_int_sync(&always).unwrap(), vec![0, 0, 0, 0]);
    let expected: Vec<u32> = (0..4u32).map(|b| tagged_draw(1, 2, TAG_CATEGORICAL_U, b, 0)).collect();
    assert_eq!(*never.1.borrow(), expected);
    assert_eq!(tagged_draw(5, 6, TAG_CATEGORICAL_U, 3, 0), threefry_2x32(5 ^ TAG_CATEGORICAL_U, 6, 3, 0).0);
    assert_eq!(dirichlet_counter(2, 3, 1), 7);
}

#[test]
fn threefry_distinct_counters_give_distinct_outputs() {
    assert_ne!(threefry_2x32(1, 2, 3, 4), threefry_2x32(1, 2, 3, 5));
    assert_ne!(threefry_2x32(1, 2, 3, 4), threefry_2x32(1, 2, 4, 4));
}

#[test]
fn float_requests_name_the_op_and_the_tagged_key() {
    let x = farr(&[1.0, 2.0], vec![2]);
    let s = add(&x, &x).unwrap();
    let (p, ins) = s.lazy_state().unwrap();
    assert!(matches!(float_request(p, ins), FloatOp::Add));
    let m = mul(&x, &x).unwrap();
    let (p, ins) = m.lazy_state().unwrap();
    assert!(matches!(float_request(p, ins), FloatOp::Mul));
    let d = dirichlet_sample(5, 6, &x, vec![3]).unwrap();
    let (p, ins) = d.lazy_state().unwrap();
    match float_request(p, ins) {
        FloatOp::DirichletSample { k0, k1, batch, k } => {
            assert_eq!((k0, k1, batch, k), (5 ^ minml_core::cpu::random::TAG_DIRICHLET, 6, 3, 2));
        }
        _ => panic!("not a Dirichlet request"),
    }
    match categorical_request(5, 6, 2) {
        FloatOp::CategoricalBelow { draw } => assert_eq!(draw, tagged_draw(5, 6, TAG_CATEGORICAL_U, 2, 0)),
        _ => panic!("not a categorical request"),
    }
}

#[test]
fn categorical_with_an_empty_batch_fails_when_evaluated() {
    let probs = farr(&[0.1, 0.9], vec![2]);
    let s = categorical_sample(1, 2, &probs, vec![0]).unwrap();
    assert_eq!(s.size(), 0);
    let host = FlagKernels(0, std::cell::RefCell::new(Vec::new()));
    match s.tolist_int_sync(&host) {
        Err(MinmlError::Other(m)) => assert_eq!(m, "categorical_sample: empty batch"),
        _ => panic!("expected an error"),
    }
}

#[test]
fn inputs_are_evaluated_from_the_last() {
    // Both inputs fail; the last one is evaluated first, so its error is the one reported.
    let bad_range = randint(1, 2, 5, 1, vec![2], Device::Cpu);
    let table = farr(&[1.0, 2.0, 3.0], vec![3]);
    let idx = Array::from_i32_1d(vec![5, 0], Device::Cpu).unwrap();
    let out_of_range = gather(&table, &idx).unwrap();
    let s = add(&bad_range, &out_of_range).unwrap();
    assert!(matches!(s.tolist_words(&TestKernels), Err(MinmlError::GatherOob)));
    let t = add(&out_of_range, &bad_range).unwrap();
    match t.tolist_words(&TestKernels) {
        Err(MinmlError::Other(m)) => assert_eq!(m, "randint: high <= low"),
        _ => panic!("expected the randint error"),
    }
}
