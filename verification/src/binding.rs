// The argument plan shared by the language bindings' vmap entry points:
// which arguments are Arrays handed to `vmap_apply`, and how many
// iterations the first batched argument calls for.
use vstd::prelude::*;

verus! {

/// The length a binding found on an argument that is not an Array.
pub enum ArgLength {
    /// A length of `n`.
    Len(usize),
    /// The argument has no length.
    Missing,
    /// The argument has a length that is not a number.
    NotANumber,
}

/// What a binding found in one vmap argument.
pub enum VmapArgKind {
    /// A library Array; `first_dim` is its leading dimension (`None` for a scalar).
    Array { first_dim: Option<usize> },
    /// Anything else, with what was found of its length.
    Other { len: ArgLength },
}

/// Why a binding-level vmap call cannot be planned.
#[derive(Debug)]
pub enum VmapPlanError {
    /// The error with this message.
    Message(&'static str),
    /// The first batched argument, number `arg`, has no length.
    NoLength { arg: usize },
    /// The first batched argument, number `arg`, has a length that is not a number.
    LengthNotANumber { arg: usize },
}

/// The plan of a binding-level vmap call.
pub struct VmapCallPlan {
    /// Iteration count, taken from the first batched argument.
    pub batch_n: usize,
    /// For each argument, its position among the Array arguments, or -1.
    pub array_slot: Vec<i32>,
    /// The in-axes of the Array arguments, in order.
    pub array_axes: Vec<i32>,
}

/// The number of Array arguments among the first `i`.
pub open spec fn arrays_before(kinds: Seq<VmapArgKind>, i: int) -> nat
    decreases i,
{
    if i <= 0 {
        0
    } else {
        arrays_before(kinds, i - 1) + if kinds[i - 1] is Array {
            1nat
        } else {
            0nat
        }
    }
}

/// Argument `i` is the first one with a non-negative axis.
pub open spec fn is_first_batched(in_axes: Seq<i32>, i: int) -> bool {
    &&& 0 <= i < in_axes.len()
    &&& in_axes[i] >= 0
    &&& forall|j: int| 0 <= j < i ==> in_axes[j] < 0
}

/// The in-axes of the Array arguments among the first `i`, in order.
pub open spec fn array_axes_before(kinds: Seq<VmapArgKind>, in_axes: Seq<i32>, i: int) -> Seq<i32>
    decreases i,
{
    if i <= 0 {
        Seq::empty()
    } else if kinds[i - 1] is Array {
        array_axes_before(kinds, in_axes, i - 1).push(in_axes[i - 1])
    } else {
        array_axes_before(kinds, in_axes, i - 1)
    }
}

/// The outcome a batched first argument (number `i`) calls for: its
/// iteration count, or why it cannot be batched.
pub open spec fn batch_of(kind: VmapArgKind, axis: i32, i: int) -> Result<usize, VmapPlanError> {
    match kind {
        VmapArgKind::Array { first_dim } => if axis != 0 {
            Err(VmapPlanError::Message("vmap: only axis 0 supported on Arrays"))
        } else {
            match first_dim {
                Some(n) => Ok(n),
                None => Err(VmapPlanError::Message("vmap: cannot batch over a scalar")),
            }
        },
        VmapArgKind::Other { len } => match len {
            ArgLength::Len(n) => Ok(n),
            ArgLength::Missing => Err(VmapPlanError::NoLength { arg: i as usize }),
            ArgLength::NotANumber => Err(VmapPlanError::LengthNotANumber { arg: i as usize }),
        },
    }
}

/// Plans a binding-level vmap call from the in-axes (-1 for "not batched")
/// and what each argument is. The first argument with a non-negative axis
/// decides the iteration count; fails when the lists differ in length,
/// when that argument cannot be batched, and when no argument is batched.
pub fn plan_vmap_call(in_axes: &[i32], kinds: &[VmapArgKind]) -> (r: Result<
    VmapCallPlan,
    VmapPlanError,
>)
    ensures
        kinds@.len() != in_axes@.len() ==> r == Err::<VmapCallPlan, VmapPlanError>(
            VmapPlanError::Message("vmap: in_axes length != args length"),
        ),
        kinds@.len() == in_axes@.len() && (forall|i: int| 0 <= i < in_axes@.len() ==> in_axes@[i] < 0)
            ==> r == Err::<VmapCallPlan, VmapPlanError>(VmapPlanError::Message("vmap: no batched inputs")),
        forall|f: int|
            kinds@.len() == in_axes@.len() && #[trigger] is_first_batched(in_axes@, f) ==> (match batch_of(
                kinds@[f],
                in_axes@[f],
                f,
            ) {
                Ok(n) => r matches Ok(p) && p.batch_n == n,
                Err(err) => r == Err::<VmapCallPlan, VmapPlanError>(err),
            }),
        r matches Ok(p) ==> {
            &&& p.array_slot@.len() == in_axes@.len()
            &&& forall|i: int|
                0 <= i < in_axes@.len() ==> #[trigger] p.array_slot@[i] == if kinds@[i] is Array {
                    arrays_before(kinds@, i) as i32
                } else {
                    -1i32
                }
            &&& p.array_axes@ == array_axes_before(kinds@, in_axes@, in_axes@.len() as int)
        },
{
    if kinds.len() != in_axes.len() {
        return Err(VmapPlanError::Message("vmap: in_axes length != args length"));
    }
    let n = in_axes.len();
    let mut array_slot: Vec<i32> = Vec::new();
    let mut array_axes: Vec<i32> = Vec::new();
    let mut count: usize = 0;
    let mut batch_n: usize = 0;
    let mut found = false;
    let mut i: usize = 0;
    while i < n
        invariant
            i <= n == in_axes@.len() == kinds@.len(),
            count == arrays_before(kinds@, i as int),
            count <= i,
            array_slot@.len() == i,
            forall|k: int|
                0 <= k < i ==> #[trigger] array_slot@[k] == if kinds@[k] is Array {
                    arrays_before(kinds@, k) as i32
                } else {
                    -1i32
                },
            array_axes@ == array_axes_before(kinds@, in_axes@, i as int),
            found <==> exists|f: int| 0 <= f < i && is_first_batched(in_axes@, f),
            found ==> forall|f: int|
                0 <= f < i && #[trigger] is_first_batched(in_axes@, f) ==> batch_of(
                    kinds@[f],
                    in_axes@[f],
                    f,
                ) == Ok::<usize, VmapPlanError>(batch_n),
            !found ==> forall|j: int| 0 <= j < i ==> in_axes@[j] < 0,
        decreases n - i,
    {
        let axis = in_axes[i];
        match &kinds[i] {
            VmapArgKind::Array { first_dim } => {
                array_slot.push(count as i32);
                array_axes.push(axis);
                count = count + 1;
                if axis >= 0 && !found {
                    assert(is_first_batched(in_axes@, i as int));
                    if axis != 0 {
                        return Err(VmapPlanError::Message("vmap: only axis 0 supported on Arrays"));
                    }
                    match first_dim {
                        Some(d) => {
                            batch_n = *d;
                        },
                        None => {
                            return Err(VmapPlanError::Message("vmap: cannot batch over a scalar"));
                        },
                    }
                    found = true;
                }
            },
            VmapArgKind::Other { len } => {
                array_slot.push(-1);
                if axis >= 0 && !found {
                    assert(is_first_batched(in_axes@, i as int));
                    match len {
                        ArgLength::Len(d) => {
                            batch_n = *d;
                        },
                        ArgLength::Missing => {
                            return Err(VmapPlanError::NoLength { arg: i });
                        },
                        ArgLength::NotANumber => {
                            return Err(VmapPlanError::LengthNotANumber { arg: i });
                        },
                    }
                    found = true;
                }
            },
        }
        i = i + 1;
    }
    if !found {
        return Err(VmapPlanError::Message("vmap: no batched inputs"));
    }
    Ok(VmapCallPlan { batch_n, array_slot, array_axes })
}

} // verus!
