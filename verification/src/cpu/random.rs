// Random draws on the CPU. Every draw comes from Threefry-2x32; each op
// xors its own tag into the first key word so that different ops given
// the same key do not produce the same bits.
use crate::error::MinmlError;
use crate::threefry::{threefry_2x32, threefry_spec, threefry_u32};
use vstd::prelude::*;

verus! {

/// Tag of `randint` ('RAND').
pub const TAG_RANDINT: u32 = 0x52414E44;

/// Tag of the Dirichlet sampler ('DIRC').
pub const TAG_DIRICHLET: u32 = 0x44495243;

/// Tag of the uniform draws of the categorical sampler ('CATU').
pub const TAG_CATEGORICAL_U: u32 = 0x43415455;

/// The number of values in `[low, high)`.
pub open spec fn span_spec(low: i32, high: i32) -> int {
    high as int - low as int
}

/// The value of draw `i` of `randint`: the draw's random word reduced
/// modulo the span and shifted to start at `low`; the counter is the
/// index reduced to 32 bits.
pub open spec fn randint_value(k0: u32, k1: u32, low: i32, high: i32, i: int) -> int {
    let bits = threefry_spec(k0 ^ TAG_RANDINT, k1, i as u32, 0).0;
    low as int + (bits as int) % span_spec(low, high)
}

/// The stored words of `n` draws of `randint`.
pub open spec fn randint_spec(k0: u32, k1: u32, low: i32, high: i32, n: nat) -> Seq<u32> {
    Seq::new(n, |i: int| (randint_value(k0, k1, low, high, i) as i32) as u32)
}

/// `n` integers drawn uniformly-ish from `[low, high)` under key
/// `(k0, k1)`: draw `i` is `low + bits_i % (high - low)`. Refuses an
/// empty range.
pub fn randint(k0: u32, k1: u32, low: i32, high: i32, n: usize) -> (r: Result<
    Vec<u32>,
    MinmlError,
>)
    ensures
        r is Ok <==> low < high,
        r matches Ok(v) ==> v@ == randint_spec(k0, k1, low, high, n as nat),
        r matches Ok(v) ==> forall|i: int|
            0 <= i < n ==> low <= #[trigger] randint_value(k0, k1, low, high, i) < high,
        r matches Err(e) ==> e matches MinmlError::Other(m) && m@ == "randint: high <= low"@,
{
    if high <= low {
        return Err(MinmlError::Other(String::from_str("randint: high <= low")));
    }
    let span: u32 = (high as i64 - low as i64) as u32;
    let mut out: Vec<u32> = Vec::new();
    let mut i: usize = 0;
    while i < n
        invariant
            i <= n,
            low < high,
            span as int == span_spec(low, high),
            out@ == randint_spec(k0, k1, low, high, i as nat),
        decreases n - i,
    {
        let bits = threefry_u32(k0 ^ TAG_RANDINT, k1, i as u32);
        let v: i64 = low as i64 + (bits % span) as i64;
        proof {
            assert(v == randint_value(k0, k1, low, high, i as int));
            assert(v < high);
        }
        out.push((v as i32) as u32);
        i = i + 1;
        assert(out@ =~= randint_spec(k0, k1, low, high, i as nat));
    }
    proof {
        assert forall|i: int| 0 <= i < n implies low <= #[trigger] randint_value(
            k0,
            k1,
            low,
            high,
            i,
        ) < high by {
            let bits = threefry_spec(k0 ^ TAG_RANDINT, k1, i as u32, 0).0;
            assert(0 <= (bits as int) % span_spec(low, high) < span_spec(low, high));
        }
    }
    Ok(out)
}

/// The random word of draw `i`, sub-draw `sub`, of an op keyed by
/// `(k0, k1)` and tagged with `tag`.
pub open spec fn draw_word(k0: u32, k1: u32, tag: u32, i: u32, sub: u32) -> u32 {
    threefry_spec(k0 ^ tag, k1, i, sub).0
}

/// The random word of draw `i`, sub-draw `sub`, of an op keyed by
/// `(k0, k1)` and tagged with `tag`.
pub fn tagged_draw(k0: u32, k1: u32, tag: u32, i: u32, sub: u32) -> (r: u32)
    ensures
        r == draw_word(k0, k1, tag, i, sub),
{
    threefry_2x32(k0 ^ tag, k1, i, sub).0
}

/// The counter of element `k` of Dirichlet row `b`, in rows of `big_k`
/// elements: the element's flat index reduced to 32 bits.
pub fn dirichlet_counter(b: usize, big_k: usize, k: usize) -> (r: u32)
    requires
        b * big_k + k <= usize::MAX,
    ensures
        r == (b * big_k + k) as u32,
{
    let idx: usize = b * big_k + k;
    #[verifier::truncate]
    (idx as u32)
}

/// The class picked by a categorical draw from the kernel's answers: a
/// nonzero answer at class `j` means the draw falls below the cumulative
/// weight of class `j`. Looking from class `i` on, the first class it
/// falls below, or the last class when it falls below none.
pub open spec fn first_below_from(answers: Seq<u32>, i: nat) -> nat
    decreases answers.len() - i,
{
    if i + 1 >= answers.len() {
        i
    } else if answers[i as int] != 0 {
        i
    } else {
        first_below_from(answers, i + 1)
    }
}

/// The class a categorical draw picks from the kernel's answers.
pub open spec fn class_of(answers: Seq<u32>) -> nat {
    first_below_from(answers, 0)
}

/// The random word of draw `b` of a categorical node keyed by `(k0, k1)`.
pub open spec fn categorical_draw(k0: u32, k1: u32, b: int) -> u32 {
    draw_word(k0, k1, TAG_CATEGORICAL_U, b as u32, 0)
}

/// The class that a categorical draw picks, given the kernel's answer for
/// each class (nonzero when the draw falls below that class's cumulative
/// weight): the first class it falls below, or the last class when it falls
/// below none.
pub fn categorical_pick(answers: &[u32]) -> (r: usize)
    requires
        answers@.len() >= 1,
    ensures
        r == class_of(answers@),
        r < answers@.len(),
        forall|j: int| 0 <= j < r ==> answers@[j] == 0,
        answers@[r as int] != 0 || r == answers@.len() - 1,
{
    let mut k: usize = 0;
    while k < answers.len() - 1
        invariant
            k < answers@.len(),
            forall|j: int| 0 <= j < k ==> answers@[j] == 0,
            class_of(answers@) == first_below_from(answers@, k as nat),
        decreases answers@.len() - k,
    {
        if answers[k] != 0 {
            return k;
        }
        k = k + 1;
    }
    k
}

} // verus!
