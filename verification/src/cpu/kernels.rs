// CPU kernels that only generate or move 32-bit words: `ones` and `gather`.
use crate::dtype::DType;
use crate::error::MinmlError;
use vstd::prelude::*;

verus! {

/// The stored word of the value one: the IEEE-754 single-precision
/// pattern of 1.0 for Float32, the integer 1 for Int32.
pub open spec fn one_word(t: DType) -> u32 {
    match t {
        DType::Float32 => 0x3F80_0000u32,
        DType::Int32 => 1u32,
    }
}

/// `n` ones of the given element type.
pub open spec fn ones_spec(t: DType, n: nat) -> Seq<u32> {
    Seq::new(n, |i: int| one_word(t))
}

/// An index word read as a signed 32-bit integer.
pub open spec fn index_of(w: u32) -> int {
    (w as i32) as int
}

/// Whether every index word names one of `rows` rows.
pub open spec fn indices_in_range(indices: Seq<u32>, rows: nat) -> bool {
    forall|i: int| 0 <= i < indices.len() ==> 0 <= #[trigger] index_of(indices[i]) < rows
}

/// Row `r` of a row-major table whose rows are `trail` words long.
pub open spec fn row(table: Seq<u32>, trail: nat, r: int) -> Seq<u32> {
    table.subrange(r * trail, r * trail + trail)
}

/// The rows named by the first `m` index words, one after the other.
pub open spec fn gather_spec(table: Seq<u32>, trail: nat, indices: Seq<u32>, m: nat) -> Seq<u32>
    decreases m,
{
    if m == 0 {
        Seq::empty()
    } else {
        gather_spec(table, trail, indices, (m - 1) as nat) + row(
            table,
            trail,
            index_of(indices[m - 1]),
        )
    }
}

pub proof fn lemma_gather_len(table: Seq<u32>, trail: nat, indices: Seq<u32>, m: nat, rows: nat)
    requires
        m <= indices.len(),
        indices_in_range(indices, rows),
        rows * trail <= table.len(),
    ensures
        gather_spec(table, trail, indices, m).len() == m * trail,
    decreases m,
{
    if m == 0 {
        assert(m * trail == 0) by (nonlinear_arith)
            requires
                m == 0,
        ;
    } else {
        lemma_gather_len(table, trail, indices, (m - 1) as nat, rows);
        let k = index_of(indices[m - 1]);
        assert(0 <= k < rows);
        assert(k * trail + trail <= rows * trail) by (nonlinear_arith)
            requires
                0 <= k < rows,
        ;
        assert(0 <= k * trail) by (nonlinear_arith)
            requires
                0 <= k,
        ;
        assert((m - 1) * trail + trail == m * trail) by (nonlinear_arith);
        assert(row(table, trail, k).len() == trail);
    }
}

/// Each gathered word is the word of the named row at the same column.
pub proof fn lemma_gather_index(
    table: Seq<u32>,
    trail: nat,
    indices: Seq<u32>,
    m: nat,
    rows: nat,
    i: int,
    j: int,
)
    requires
        m <= indices.len(),
        indices_in_range(indices, rows),
        rows * trail <= table.len(),
        0 <= i < m,
        0 <= j < trail,
    ensures
        0 <= i * trail + j < m * trail,
        gather_spec(table, trail, indices, m)[i * trail + j] == table[index_of(indices[i]) * trail
            + j],
    decreases m,
{
    lemma_gather_len(table, trail, indices, m, rows);
    lemma_gather_len(table, trail, indices, (m - 1) as nat, rows);
    assert(0 <= i * trail + j < m * trail) by (nonlinear_arith)
        requires
            0 <= i < m,
            0 <= j < trail,
    ;
    let k = index_of(indices[m - 1]);
    assert(0 <= k * trail && k * trail + trail <= rows * trail) by (nonlinear_arith)
        requires
            0 <= k < rows,
    ;
    if i == m - 1 {
        assert((m - 1) * trail + j == i * trail + j);
    } else {
        assert(i * trail + j < (m - 1) * trail) by (nonlinear_arith)
            requires
                0 <= i < m - 1,
                0 <= j < trail,
        ;
        lemma_gather_index(table, trail, indices, (m - 1) as nat, rows, i, j);
    }
}

/// `n` ones of the element type `t`.
pub fn ones(t: DType, n: usize) -> (r: Vec<u32>)
    ensures
        r@ == ones_spec(t, n as nat),
{
    let w: u32 = match t {
        DType::Float32 => 0x3F80_0000u32,
        DType::Int32 => 1u32,
    };
    let mut out: Vec<u32> = Vec::new();
    let mut i: usize = 0;
    while i < n
        invariant
            i <= n,
            w == one_word(t),
            out@ == ones_spec(t, i as nat),
        decreases n - i,
    {
        out.push(w);
        i = i + 1;
        assert(out@ =~= ones_spec(t, i as nat));
    }
    out
}

/// Gathers rows of a row-major table (`rows` rows of `trail` words each):
/// output row `i` is the table row named by index word `i`. Fails with
/// `GatherOob` when an index is negative or not below `rows`.
pub fn gather(table: &[u32], rows: usize, trail: usize, indices: &[u32]) -> (r: Result<
    Vec<u32>,
    MinmlError,
>)
    requires
        rows * trail <= table@.len(),
        indices@.len() * trail <= usize::MAX,
    ensures
        r is Ok <==> indices_in_range(indices@, rows as nat),
        r matches Ok(v) ==> v@ == gather_spec(table@, trail as nat, indices@, indices@.len()),
        r matches Ok(v) ==> v@.len() == indices@.len() * trail,
        r matches Err(e) ==> e == MinmlError::GatherOob,
{
    let m = indices.len();
    let table_len = table.len();
    assert(rows * trail <= table_len);
    let mut out: Vec<u32> = Vec::new();
    let mut i: usize = 0;
    while i < m
        invariant
            i <= m == indices@.len(),
            rows * trail <= table@.len(),
            rows * trail <= usize::MAX,
            m * trail <= usize::MAX,
            forall|p: int| 0 <= p < i ==> 0 <= #[trigger] index_of(indices@[p]) < rows,
            out@ == gather_spec(table@, trail as nat, indices@, i as nat),
            out@.len() == i * trail,
        decreases m - i,
    {
        let k = (#[verifier::truncate] (indices[i] as i32));
        if k < 0 || (k as usize) >= rows {
            assert(!indices_in_range(indices@, rows as nat)) by {
                assert(index_of(indices@[i as int]) == k);
            }
            return Err(MinmlError::GatherOob);
        }
        let ku = k as usize;
        assert(ku * trail + trail <= rows * trail) by (nonlinear_arith)
            requires
                ku < rows,
        ;
        assert(i * trail + trail <= m * trail) by (nonlinear_arith)
            requires
                i < m,
        ;
        let src = ku * trail;
        let mut j: usize = 0;
        while j < trail
            invariant
                j <= trail,
                src + trail <= rows * trail <= table@.len(),
                rows * trail <= usize::MAX,
                i * trail + trail <= m * trail <= usize::MAX,
                out@ == gather_spec(table@, trail as nat, indices@, i as nat) + table@.subrange(
                    src as int,
                    src + j,
                ),
                out@.len() == i * trail + j,
            decreases trail - j,
        {
            out.push(table[src + j]);
            j = j + 1;
            assert(out@ =~= gather_spec(table@, trail as nat, indices@, i as nat) + table@.subrange(
                src as int,
                src + j,
            ));
        }
        assert(index_of(indices@[i as int]) == ku);
        assert(src == index_of(indices@[i as int]) * trail);
        assert(gather_spec(table@, trail as nat, indices@, (i + 1) as nat) == gather_spec(
            table@,
            trail as nat,
            indices@,
            i as nat,
        ) + row(table@, trail as nat, index_of(indices@[i as int])));
        i = i + 1;
        assert((i - 1) * trail + trail == i * trail) by (nonlinear_arith);
    }
    Ok(out)
}

} // verus!
