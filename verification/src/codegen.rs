// Source generation for fused elementwise kernels: the expression as
// source text, and whole WGSL / CUDA-C kernels around it. Inputs are
// named `in0`, `in1`, ...; the kernels index them with `i`.
use crate::transforms::{FusedExpr, inputs_below};
use vstd::prelude::*;

verus! {

/// The decimal digit `d` as a character.
pub open spec fn digit_char(d: nat) -> char {
    (d + 48) as char
}

/// The decimal spelling of `n`, without leading zeros.
pub open spec fn decimal(n: nat) -> Seq<char>
    decreases n,
{
    if n < 10 {
        seq![digit_char(n)]
    } else {
        decimal(n / 10).push(digit_char(n % 10))
    }
}

fn digit_str(d: usize) -> (s: &'static str)
    requires
        d < 10,
    ensures
        s@ == seq![digit_char(d as nat)],
{
    match d {
        0 => {
            proof {
                reveal_strlit("0");
            }
            "0"
        },
        1 => {
            proof {
                reveal_strlit("1");
            }
            "1"
        },
        2 => {
            proof {
                reveal_strlit("2");
            }
            "2"
        },
        3 => {
            proof {
                reveal_strlit("3");
            }
            "3"
        },
        4 => {
            proof {
                reveal_strlit("4");
            }
            "4"
        },
        5 => {
            proof {
                reveal_strlit("5");
            }
            "5"
        },
        6 => {
            proof {
                reveal_strlit("6");
            }
            "6"
        },
        7 => {
            proof {
                reveal_strlit("7");
            }
            "7"
        },
        8 => {
            proof {
                reveal_strlit("8");
            }
            "8"
        },
        _ => {
            proof {
                reveal_strlit("9");
            }
            "9"
        },
    }
}

/// The decimal spelling of `n`.
pub fn decimal_string(n: usize) -> (s: String)
    ensures
        s@ == decimal(n as nat),
    decreases n,
{
    if n < 10 {
        String::from_str(digit_str(n))
    } else {
        let mut s = decimal_string(n / 10);
        s.append(digit_str(n % 10));
        s
    }
}

/// The name of input `i` in generated source.
pub open spec fn input_name(i: nat) -> Seq<char> {
    "in"@ + decimal(i)
}

/// The names of the first `n` inputs.
pub fn input_names(n: usize) -> (r: Vec<String>)
    ensures
        r@.len() == n,
        forall|i: int| 0 <= i < n ==> (#[trigger] r@[i])@ == input_name(i as nat),
{
    let mut out: Vec<String> = Vec::new();
    let mut i: usize = 0;
    while i < n
        invariant
            i <= n,
            out@.len() == i,
            forall|k: int| 0 <= k < i ==> (#[trigger] out@[k])@ == input_name(k as nat),
        decreases n - i,
    {
        let mut name = String::from_str("in");
        let d = decimal_string(i);
        name.append(d.as_str());
        out.push(name);
        i = i + 1;
    }
    out
}

/// The views of a sequence of strings.
pub open spec fn string_views(s: Seq<String>) -> Seq<Seq<char>> {
    s.map_values(|x: String| x@)
}

/// The expression as source text over the given input names: inputs read
/// element `i`, and every add or mul is parenthesised.
pub open spec fn render_spec(e: FusedExpr, names: Seq<Seq<char>>) -> Seq<char>
    decreases e,
{
    match e {
        FusedExpr::Input(k) => names[k as int] + "[i]"@,
        FusedExpr::Add(l, r) => "("@ + render_spec(*l, names) + " + "@ + render_spec(*r, names)
            + ")"@,
        FusedExpr::Mul(l, r) => "("@ + render_spec(*l, names) + " * "@ + render_spec(*r, names)
            + ")"@,
    }
}

/// The expression as source text over the given input names.
pub fn render_str(expr: &FusedExpr, names: &[String]) -> (r: String)
    requires
        inputs_below(*expr, names@.len()),
    ensures
        r@ == render_spec(*expr, string_views(names@)),
    decreases expr,
{
    match expr {
        FusedExpr::Input(k) => {
            let mut s = names[*k].clone();
            s.append("[i]");
            s
        },
        FusedExpr::Add(l, r) => {
            let mut s = String::from_str("(");
            let a = render_str(&**l, names);
            let b = render_str(&**r, names);
            s.append(a.as_str());
            s.append(" + ");
            s.append(b.as_str());
            s.append(")");
            s
        },
        FusedExpr::Mul(l, r) => {
            let mut s = String::from_str("(");
            let a = render_str(&**l, names);
            let b = render_str(&**r, names);
            s.append(a.as_str());
            s.append(" * ");
            s.append(b.as_str());
            s.append(")");
            s
        },
    }
}

/// The WGSL binding lines of the first `n` inputs.
pub open spec fn wgsl_bindings(n: nat) -> Seq<char>
    decreases n,
{
    if n == 0 {
        Seq::empty()
    } else {
        wgsl_bindings((n - 1) as nat) + "@group(0) @binding("@ + decimal((n - 1) as nat)
            + ") var<storage, read> "@ + input_name((n - 1) as nat) + " : array<f32>;\n"@
    }
}

/// A WGSL compute kernel (workgroup size 64) that writes the expression
/// over `n` input arrays to `out`, one element per invocation.
pub open spec fn wgsl_spec(e: FusedExpr, n: nat) -> Seq<char> {
    wgsl_bindings(n) + "@group(0) @binding("@ + decimal(n)
        + ") var<storage, read_write> out : array<f32>;\n\n"@ + "@compute @workgroup_size(64)\n"@
        + "fn main(@builtin(global_invocation_id) gid : vec3<u32>) {\n"@ + "  let i = gid.x;\n"@
        + "  if (i < arrayLength(&out)) {\n"@ + "    out[i] = "@ + render_spec(
        e,
        Seq::new(n, |i: int| input_name(i as nat)),
    ) + ";\n"@ + "  }\n}\n"@
}

/// The CUDA-C parameter list entries of the first `n` inputs.
pub open spec fn cuda_params(n: nat) -> Seq<char>
    decreases n,
{
    if n == 0 {
        Seq::empty()
    } else {
        cuda_params((n - 1) as nat) + "const float* __restrict__ "@ + input_name((n - 1) as nat)
            + ", "@
    }
}

/// A CUDA-C kernel named `fn_name` that writes the expression over `n`
/// input arrays to `out`, one element per thread, for the first `n`
/// elements (`n` is also the name of its length parameter).
pub open spec fn cuda_spec(e: FusedExpr, n: nat, fn_name: Seq<char>) -> Seq<char> {
    "extern \"C\" __global__\nvoid "@ + fn_name + "("@ + cuda_params(n)
        + "float* __restrict__ out, unsigned int n) {\n"@
        + "    unsigned int i = blockIdx.x * blockDim.x + threadIdx.x;\n"@ + "    if (i < n) out[i] = "@
        + render_spec(e, Seq::new(n, |i: int| input_name(i as nat))) + ";\n}\n"@
}

/// The WGSL source of a fused elementwise kernel over `n_inputs` inputs.
pub fn build_wgsl(expr: &FusedExpr, n_inputs: usize) -> (s: String)
    requires
        inputs_below(*expr, n_inputs as nat),
    ensures
        s@ == wgsl_spec(*expr, n_inputs as nat),
{
    let names = input_names(n_inputs);
    let mut s = String::new();
    let mut i: usize = 0;
    while i < names.len()
        invariant
            i <= names@.len() == n_inputs,
            forall|k: int| 0 <= k < n_inputs ==> (#[trigger] names@[k])@ == input_name(k as nat),
            s@ == wgsl_bindings(i as nat),
        decreases names@.len() - i,
    {
        s.append("@group(0) @binding(");
        let d = decimal_string(i);
        s.append(d.as_str());
        s.append(") var<storage, read> ");
        s.append(names[i].as_str());
        s.append(" : array<f32>;\n");
        i = i + 1;
    }
    s.append("@group(0) @binding(");
    let d = decimal_string(n_inputs);
    s.append(d.as_str());
    s.append(") var<storage, read_write> out : array<f32>;\n\n");
    s.append("@compute @workgroup_size(64)\n");
    s.append("fn main(@builtin(global_invocation_id) gid : vec3<u32>) {\n");
    s.append("  let i = gid.x;\n");
    s.append("  if (i < arrayLength(&out)) {\n");
    s.append("    out[i] = ");
    let body = render_str(expr, names.as_slice());
    s.append(body.as_str());
    s.append(";\n");
    s.append("  }\n}\n");
    proof {
        assert(string_views(names@) =~= Seq::new(n_inputs as nat, |i: int| input_name(i as nat)));
    }
    s
}

/// The CUDA-C source of a fused elementwise kernel over `n_inputs` inputs.
pub fn build_cuda_c(expr: &FusedExpr, n_inputs: usize, fn_name: &str) -> (s: String)
    requires
        inputs_below(*expr, n_inputs as nat),
    ensures
        s@ == cuda_spec(*expr, n_inputs as nat, fn_name@),
{
    let names = input_names(n_inputs);
    let mut s = String::from_str("extern \"C\" __global__\nvoid ");
    s.append(fn_name);
    s.append("(");
    let mut i: usize = 0;
    while i < names.len()
        invariant
            i <= names@.len() == n_inputs,
            forall|k: int| 0 <= k < n_inputs ==> (#[trigger] names@[k])@ == input_name(k as nat),
            s@ == "extern \"C\" __global__\nvoid "@ + fn_name@ + "("@ + cuda_params(i as nat),
        decreases names@.len() - i,
    {
        s.append("const float* __restrict__ ");
        s.append(names[i].as_str());
        s.append(", ");
        i = i + 1;
    }
    s.append("float* __restrict__ out, unsigned int n) {\n");
    s.append("    unsigned int i = blockIdx.x * blockDim.x + threadIdx.x;\n");
    s.append("    if (i < n) out[i] = ");
    let body = render_str(expr, names.as_slice());
    s.append(body.as_str());
    s.append(";\n}\n");
    proof {
        assert(string_views(names@) =~= Seq::new(n_inputs as nat, |i: int| input_name(i as nat)));
    }
    s
}

} // verus!
