// Row-major shapes: the element count of a shape and the overflow guard
// that every shape held by an Array satisfies.
use vstd::prelude::*;

verus! {

/// The number of elements of a shape: the product of its dimensions,
/// multiplied from the first dimension to the last.
pub open spec fn prod(s: Seq<usize>) -> nat
    decreases s.len(),
{
    if s.len() == 0 {
        1
    } else {
        prod(s.drop_last()) * (s.last() as nat)
    }
}

/// Every running product met while multiplying out the shape from the
/// first dimension fits in a `usize`.
pub open spec fn shape_fits(s: Seq<usize>) -> bool {
    forall|i: int| 0 <= i <= s.len() ==> #[trigger] prod(s.take(i)) <= usize::MAX
}

pub proof fn lemma_prod_take_step(s: Seq<usize>, i: int)
    requires
        0 <= i < s.len(),
    ensures
        prod(s.take(i + 1)) == prod(s.take(i)) * (s[i] as nat),
{
    assert(s.take(i + 1).drop_last() =~= s.take(i));
}

pub proof fn lemma_take_full(s: Seq<usize>)
    ensures
        s.take(s.len() as int) == s,
{
    assert(s.take(s.len() as int) =~= s);
}

/// The product of a concatenation is the product of the parts.
pub proof fn lemma_prod_append(a: Seq<usize>, b: Seq<usize>)
    ensures
        prod(a + b) == prod(a) * prod(b),
    decreases b.len(),
{
    if b.len() == 0 {
        assert(a + b =~= a);
        assert(prod(b) == 1);
    } else {
        assert((a + b).drop_last() =~= a + b.drop_last());
        lemma_prod_append(a, b.drop_last());
        assert((a + b).last() == b.last());
        assert(prod(a + b) == prod((a + b).drop_last()) * ((a + b).last() as nat));
        assert(prod(a) * prod(b.drop_last()) * (b.last() as nat) == prod(a) * (prod(
            b.drop_last(),
        ) * (b.last() as nat))) by (nonlinear_arith);
        assert(prod(b) == prod(b.drop_last()) * (b.last() as nat));
        assert(prod(a + b) == prod(a + b.drop_last()) * (b.last() as nat));
    }
}

/// A product that is positive bounds each of its factors' prefixes; a
/// product of zero means some dimension is zero.
pub proof fn lemma_prod_prefix_le(s: Seq<usize>, i: int)
    requires
        0 <= i <= s.len(),
        prod(s) > 0,
    ensures
        prod(s.take(i)) <= prod(s),
    decreases s.len(),
{
    if i == s.len() {
        lemma_take_full(s);
    } else {
        let t = s.drop_last();
        assert(prod(s) == prod(t) * (s.last() as nat));
        assert(prod(t) > 0 && s.last() > 0) by (nonlinear_arith)
            requires
                prod(s) == prod(t) * (s.last() as nat),
                prod(s) > 0,
        ;
        assert(prod(t) <= prod(s)) by (nonlinear_arith)
            requires
                prod(s) == prod(t) * (s.last() as nat),
                s.last() > 0,
        ;
        assert(t.take(i) =~= s.take(i));
        lemma_prod_prefix_le(t, i);
    }
}

/// A shape whose full product is positive and fits, fits.
pub proof fn lemma_fits_from_total(s: Seq<usize>)
    requires
        0 < prod(s) <= usize::MAX,
    ensures
        shape_fits(s),
{
    assert forall|i: int| 0 <= i <= s.len() implies #[trigger] prod(s.take(i)) <= usize::MAX by {
        lemma_prod_prefix_le(s, i);
    }
}

/// A shape with a zero dimension has no elements.
pub proof fn lemma_prod_zero(s: Seq<usize>, j: int)
    requires
        0 <= j < s.len(),
        s[j] == 0,
    ensures
        prod(s) == 0,
    decreases s.len(),
{
    if j == s.len() - 1 {
        assert(prod(s) == prod(s.drop_last()) * (s.last() as nat));
    } else {
        lemma_prod_zero(s.drop_last(), j);
        assert(prod(s) == prod(s.drop_last()) * (s.last() as nat));
    }
}

/// The number of elements of a shape whose running product fits a
/// `usize`.
pub fn product(shape: &[usize]) -> (r: usize)
    requires
        shape_fits(shape@),
    ensures
        r == prod(shape@),
{
    let mut p: usize = 1;
    let mut i: usize = 0;
    while i < shape.len()
        invariant
            i <= shape.len(),
            shape_fits(shape@),
            p == prod(shape@.take(i as int)),
        decreases shape.len() - i,
    {
        proof {
            lemma_prod_take_step(shape@, i as int);
            assert(prod(shape@.take(i + 1)) <= usize::MAX);
        }
        p = p * shape[i];
        i = i + 1;
    }
    proof {
        lemma_take_full(shape@);
    }
    p
}

/// A shape that fits keeps fitting when dimensions are dropped from its end.
pub proof fn lemma_fits_prefix(a: Seq<usize>, b: Seq<usize>)
    requires
        shape_fits(a + b),
    ensures
        shape_fits(a),
{
    assert forall|i: int| 0 <= i <= a.len() implies #[trigger] prod(a.take(i)) <= usize::MAX by {
        assert((a + b).take(i) =~= a.take(i));
        assert(prod((a + b).take(i)) <= usize::MAX);
    }
}

/// A shape can be held by an Array: it multiplies out without overflow
/// and its byte count fits a `usize`.
pub open spec fn shape_holdable(s: Seq<usize>) -> bool {
    shape_fits(s) && prod(s) * 4 <= usize::MAX
}

/// The element count of a shape, or `None` when the shape cannot be held
/// by an Array.
pub fn checked_elems(shape: &[usize]) -> (r: Option<usize>)
    ensures
        r is Some <==> shape_holdable(shape@),
        r matches Some(n) ==> n == prod(shape@),
{
    let mut p: usize = 1;
    let mut i: usize = 0;
    while i < shape.len()
        invariant
            i <= shape@.len(),
            p == prod(shape@.take(i as int)),
            forall|k: int| 0 <= k <= i ==> #[trigger] prod(shape@.take(k)) <= usize::MAX,
        decreases shape@.len() - i,
    {
        proof {
            lemma_prod_take_step(shape@, i as int);
        }
        match p.checked_mul(shape[i]) {
            Some(q) => {
                p = q;
            },
            None => {
                return None;
            },
        }
        i = i + 1;
    }
    proof {
        lemma_take_full(shape@);
    }
    match p.checked_mul(4) {
        Some(_) => Some(p),
        None => None,
    }
}

} // verus!
