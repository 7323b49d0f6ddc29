// Round-trips the CPU backend through the lazy graph. The floating-point
// kernels are supplied by a small test implementation of `FloatKernels`.
use minml_core::array::Array;
use minml_core::device::Device;
use minml_core::dtype::DType;
use minml_core::error::MinmlError;
use minml_core::cpu::random::{dirichlet_counter, tagged_draw};
use minml_core::ops::{add, categorical_sample, dirichlet_sample, dot, gather, mul, ones, randint};
use minml_core::primitive::{FloatKernels, FloatOp};
use minml_core::prng::PRNGKey;
use minml_core::transforms::{slice_axis0, stack, vmap_apply};

struct TestKernels;

fn fl(w: u32) -> f32 {
    f32::from_bits(w)
}

impl FloatKernels for TestKernels {
    fn run(&self, op: &FloatOp, inputs: &[Vec<u32>], out_len: usize) -> Result<Vec<u32>, MinmlError> {
        match op {
            FloatOp::Add => Ok((0..out_len)
                .map(|i| (fl(inputs[0][i]) + fl(inputs[1][i])).to_bits())
                .collect()),
            FloatOp::Mul => Ok((0..out_len)
                .map(|i| (fl(inputs[0][i]) * fl(inputs[1][i])).to_bits())
                .collect()),
            FloatOp::Dot => {
                let mut sum = 0.0f32;
                for i in 0..inputs[0].len() {
                    sum += fl(inputs[0][i]) * fl(inputs[1][i]);
                }
                Ok(vec![sum.to_bits()])
            }
            FloatOp::DirichletSample { k0, k1, batch, k } => {
                let alpha: Vec<f32> = inputs[0].iter().map(|w| fl(*w)).collect();
                let mut o = vec![0.0f32; batch * k];
                for b in 0..*batch {
                    let row = &mut o[b * k..(b + 1) * k];
                    let mut sum = 0.0f32;
                    for j in 0..*k {
                        row[j] = sample_gamma(*k0, *k1, alpha[j], dirichlet_counter(b, *k, j));
                        sum += row[j];
                    }
                    if sum > 0.0 {
                        for v in row.iter_mut() {
                            *v /= sum;
                        }
                    }
                }
                Ok(o.iter().map(|v| v.to_bits()).collect())
            }
            FloatOp::CategoricalBelow { draw } => {
                let mut cdf = Vec::new();
                let mut total = 0.0f32;
                for w in &inputs[0] {
                    total += fl(*w);
                    cdf.push(total);
                }
                if total <= 0.0 {
                    return Err(MinmlError::Other("categorical: probs sum to 0".to_string()));
                }
                let u = ((draw >> 8) as f32) * (1.0 / 16_777_216.0) * total;
                Ok(cdf.iter().map(|c| (u < *c) as u32).collect())
            }
            _ => Err(MinmlError::Other("not provided by the test kernels".to_string())),
        }
    }
}

fn uniform_for(k0: u32, k1: u32, tag: u32, i: u32, sub: u32) -> f32 {
    ((tagged_draw(k0, k1, tag, i, sub) >> 8) as f32) * (1.0 / 16_777_216.0)
}

// Marsaglia & Tsang, with the boost for shapes below 1.
fn sample_gamma(k0: u32, k1: u32, shape: f32, base_idx: u32) -> f32 {
    if shape < 1.0 {
        let g = sample_gamma(k0, k1, shape + 1.0, base_idx);
        let u = uniform_for(k0, k1, 0xDEADBEEF, base_idx, 99).max(1e-30);
        return g * u.powf(1.0 / shape);
    }
    let d = shape - 1.0 / 3.0;
    let c = 1.0 / (9.0 * d).sqrt();
    let mut sub: u32 = 0;
    loop {
        let u1 = uniform_for(k0, k1, 0xCAFE0001, base_idx, sub).max(1e-30);
        let u2 = uniform_for(k0, k1, 0xCAFE0002, base_idx, sub + 1);
        sub += 2;
        let x = (-2.0 * u1.ln()).sqrt() * (6.2831853 * u2).cos();
        let v = 1.0 + c * x;
        if v <= 0.0 {
            continue;
        }
        let v3 = v * v * v;
        let u = uniform_for(k0, k1, 0xCAFE0003, base_idx, sub);
        sub += 1;
        if u < 1.0 - 0.0331 * x * x * x * x || u.ln() < 0.5 * x * x + d * (1.0 - v3 + v3.ln()) {
            return d * v3;
        }
    }
}

fn bits(v: &[f32]) -> Vec<u32> {
    v.iter().map(|x| x.to_bits()).collect()
}

fn floats(w: Vec<u32>) -> Vec<f32> {
    w.into_iter().map(f32::from_bits).collect()
}

fn tolist_sync(a: &Array) -> Vec<f32> {
    floats(a.tolist_words(&TestKernels).unwrap())
}

fn item_sync(a: &Array) -> f32 {
    f32::from_bits(a.item_word_sync(&TestKernels).unwrap())
}

#[test]
fn example_cpp_match() {
    let x = Array::from_f32_bits_1d(bits(&[1.0, 2.0, 3.0, 4.0]), Device::Cpu).unwrap();
    let y = Array::from_f32_bits_1d(bits(&[10.0, 20.0, 30.0, 40.0]), Device::Cpu).unwrap();

    let s = add(&x, &y).unwrap();
    assert_eq!(tolist_sync(&s), vec![11.0, 22.0, 33.0, 44.0]);

    let d = dot(&x, &y).unwrap();
    assert_eq!(item_sync(&d), 300.0);

    // Lazy graph: add evaluated twice via shared subgraph.
    let xy = add(&x, &y).unwrap();
    let dd = dot(&xy, &xy).unwrap();
    assert_eq!(
        item_sync(&dd),
        11.0_f32.powi(2) + 22.0_f32.powi(2) + 33.0_f32.powi(2) + 44.0_f32.powi(2)
    );
}

#[test]
fn mul_works() {
    let a = Array::from_f32_bits_1d(bits(&[1.0, 2.0, 3.0]), Device::Cpu).unwrap();
    let b = Array::from_f32_bits_1d(bits(&[4.0, 5.0, 6.0]), Device::Cpu).unwrap();
    let r = mul(&a, &b).unwrap();
    assert_eq!(tolist_sync(&r), vec![4.0, 10.0, 18.0]);
}

#[test]
fn ones_float() {
    let r = ones(vec![5], DType::Float32, Device::Cpu);
    assert_eq!(tolist_sync(&r), vec![1.0; 5]);
}

#[test]
fn ones_int() {
    let r = ones(vec![3], DType::Int32, Device::Cpu);
    assert_eq!(r.tolist_int_sync(&TestKernels).unwrap(), vec![1; 3]);
}

#[test]
fn randint_in_range() {
    let r = randint(123, 456, 10, 20, vec![64], Device::Cpu);
    let v = r.tolist_int_sync(&TestKernels).unwrap();
    assert_eq!(v.len(), 64);
    for x in &v {
        assert!(*x >= 10 && *x < 20, "out of range: {x}");
    }
    // Determinism: same key + op + shape -> same draws.
    let r2 = randint(123, 456, 10, 20, vec![64], Device::Cpu);
    assert_eq!(v, r2.tolist_int_sync(&TestKernels).unwrap());
}

#[test]
fn gather_works() {
    let table = Array::from_f32_bits_with_shape(
        bits(&[10.0, 20.0, 30.0, 40.0, 50.0, 60.0]),
        vec![3, 2],
        Device::Cpu,
    )
    .unwrap();
    let idx = Array::from_i32_1d(vec![2, 0, 1], Device::Cpu).unwrap();
    let r = gather(&table, &idx).unwrap();
    assert_eq!(r.shape(), &[3, 2]);
    assert_eq!(tolist_sync(&r), vec![50.0, 60.0, 10.0, 20.0, 30.0, 40.0]);
}

#[test]
fn dirichlet_sums_to_one() {
    let alpha = Array::from_f32_bits_1d(bits(&[1.0, 1.0, 1.0]), Device::Cpu).unwrap();
    let key = PRNGKey::from_seed(7);
    let s = dirichlet_sample(key.k0(), key.k1(), &alpha, vec![4]).unwrap();
    assert_eq!(s.shape(), &[4, 3]);
    let v = tolist_sync(&s);
    for row in v.chunks(3) {
        let sum: f32 = row.iter().sum();
        assert!((sum - 1.0).abs() < 1e-4, "row sum {sum}");
        for x in row {
            assert!(*x >= 0.0);
        }
    }
}

#[test]
fn categorical_in_range() {
    let probs = Array::from_f32_bits_1d(bits(&[0.1, 0.7, 0.2]), Device::Cpu).unwrap();
    let key = PRNGKey::from_seed(13);
    let s = categorical_sample(key.k0(), key.k1(), &probs, vec![100]).unwrap();
    let v = s.tolist_int_sync(&TestKernels).unwrap();
    for x in &v {
        assert!(*x >= 0 && *x < 3);
    }
}

#[test]
fn prng_split_deterministic() {
    let parent = PRNGKey::from_seed(1234);
    let a = parent.split(5);
    let b = parent.split(5);
    assert_eq!(a, b);
    assert_ne!(a[0], a[1]);
}

#[test]
fn slice_and_stack_roundtrip() {
    let a = Array::from_f32_bits_with_shape(
        bits(&[1.0, 2.0, 3.0, 4.0, 5.0, 6.0]),
        vec![3, 2],
        Device::Cpu,
    )
    .unwrap();
    let parts = slice_axis0(&a, &TestKernels).unwrap();
    assert_eq!(parts.len(), 3);
    assert_eq!(parts[0].shape(), &[2]);
    let restacked = stack(&parts, &TestKernels).unwrap();
    assert_eq!(restacked.shape(), &[3, 2]);
    assert_eq!(tolist_sync(&restacked), vec![1.0, 2.0, 3.0, 4.0, 5.0, 6.0]);
}

#[test]
fn vmap_add_per_row() {
    let xs = Array::from_f32_bits_with_shape(
        bits(&[1.0, 2.0, 3.0, 4.0, 5.0, 6.0]),
        vec![3, 2],
        Device::Cpu,
    )
    .unwrap();
    let ys = Array::from_f32_bits_with_shape(
        bits(&[10.0, 10.0, 20.0, 20.0, 30.0, 30.0]),
        vec![3, 2],
        Device::Cpu,
    )
    .unwrap();
    let mut f = |_iter: usize, args: &[Array]| -> Result<Vec<Array>, MinmlError> {
        Ok(vec![add(&args[0], &args[1])?])
    };
    let out = vmap_apply(3, &[xs, ys], &[0, 0], &mut f, &TestKernels).unwrap();
    assert_eq!(out.len(), 1);
    assert_eq!(out[0].shape(), &[3, 2]);
    assert_eq!(
        tolist_sync(&out[0]),
        vec![11.0, 12.0, 23.0, 24.0, 35.0, 36.0]
    );
}
