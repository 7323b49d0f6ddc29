// JAX-style splittable PRNG keys built on Threefry-2x32.
use crate::threefry::{lemma_threefry_counter_injective, threefry_2x32, threefry_spec};
use vstd::prelude::*;

verus! {

#[derive(Debug, Clone, Copy, PartialEq, Eq, Structural)]
pub struct PRNGKey {
    k0: u32,
    k1: u32,
}

/// Key word mixed into the seed when a key is made from a seed.
pub const SEED_KEY: u32 = 0xCAFEBABE;

/// Second counter word used when a key is split.
pub const SPLIT_COUNTER: u32 = 0xC0FFEE;

/// The key derived from a seed: the seed hashed once, so seed 0 gives no degenerate key.
pub open spec fn from_seed_spec(seed: u32) -> (u32, u32) {
    threefry_spec(seed, SEED_KEY, 0, 0)
}

/// The `i`-th child of a key; the counter is the index reduced to 32 bits.
pub open spec fn child_spec(parent: (u32, u32), i: int) -> (u32, u32) {
    threefry_spec(parent.0, parent.1, i as u32, SPLIT_COUNTER)
}

/// The key words of the first `n` children of a key.
pub open spec fn split_spec(parent: (u32, u32), n: nat) -> Seq<(u32, u32)> {
    Seq::new(n, |i: int| child_spec(parent, i))
}

impl PRNGKey {
    /// The two key words.
    pub closed spec fn words(self) -> (u32, u32) {
        (self.k0, self.k1)
    }

    pub fn new(k0: u32, k1: u32) -> (r: Self)
        ensures
            r.words() == (k0, k1),
    {
        Self { k0, k1 }
    }

    pub fn from_seed(seed: u32) -> (r: Self)
        ensures
            r.words() == from_seed_spec(seed),
    {
        let (a, b) = threefry_2x32(seed, SEED_KEY, 0, 0);
        Self { k0: a, k1: b }
    }

    pub fn k0(&self) -> (r: u32)
        ensures
            r == self.words().0,
    {
        self.k0
    }

    pub fn k1(&self) -> (r: u32)
        ensures
            r == self.words().1,
    {
        self.k1
    }

    /// `n` derived keys; the same parent always yields the same children.
    pub fn split(&self, n: usize) -> (r: Vec<PRNGKey>)
        ensures
            r@.len() == n,
            forall|i: int| 0 <= i < n ==> (#[trigger] r@[i]).words() == child_spec(self.words(), i),
            forall|i: int, j: int|
                0 <= i < j < n && j < 0x1_0000_0000 ==> (#[trigger] r@[i]).words() != (#[trigger] r@[j]).words(),
    {
        let mut out: Vec<PRNGKey> = Vec::new();
        let mut i: usize = 0;
        while i < n
            invariant
                i <= n,
                out@.len() == i,
                forall|j: int| 0 <= j < i ==> (#[trigger] out@[j]).words() == child_spec(self.words(), j),
            decreases n - i,
        {
            let (a, b) = threefry_2x32(self.k0, self.k1, i as u32, SPLIT_COUNTER);
            out.push(PRNGKey { k0: a, k1: b });
            i = i + 1;
        }
        proof {
            assert forall|i: int, j: int|
                0 <= i < j < n && j < 0x1_0000_0000 implies (#[trigger] out@[i]).words() != (
            #[trigger] out@[j]).words() by {
                lemma_split_children_distinct(self.words(), i, j);
            }
        }
        out
    }
}

impl Default for PRNGKey {
    fn default() -> (r: Self)
        ensures
            r.words() == (0u32, 0u32),
    {
        Self { k0: 0, k1: 0 }
    }
}

/// Splitting is a pure function of the parent: asking for more children
/// keeps the earlier ones, so child `i` is the same whatever `n` was asked
/// for, and two splits of one parent agree wherever both are defined.
pub proof fn lemma_split_prefix_stable(parent: (u32, u32), n: nat, m: nat)
    requires
        n <= m,
    ensures
        split_spec(parent, n) == split_spec(parent, m).take(n as int),
        forall|i: int| 0 <= i < n ==> #[trigger] split_spec(parent, n)[i] == child_spec(parent, i),
{
    assert(split_spec(parent, n) =~= split_spec(parent, m).take(n as int));
}

/// Children of one split are pairwise distinct, up to 2^32 children: child
/// `i` is drawn at counter `i`, and Threefry is one to one in its counter.
pub proof fn lemma_split_children_distinct(parent: (u32, u32), i: int, j: int)
    requires
        0 <= i < j < 0x1_0000_0000,
    ensures
        child_spec(parent, i) != child_spec(parent, j),
{
    assert(i as u32 == i && j as u32 == j);
    lemma_threefry_counter_injective(parent.0, parent.1, i as u32, SPLIT_COUNTER, j as u32, SPLIT_COUNTER);
}

} // verus!
