// Threefry-2x32-20: a counter-based, splittable pseudo-random function
// (Salmon et al., SC'11). A pure function from (key, counter) to two
// 32-bit words, so a given key yields the same draws on every backend.
use vstd::prelude::*;

verus! {

/// Left rotation of a 32-bit word by `k` bits, for `0 < k < 32`.
pub open spec fn rotl32_spec(x: u32, k: u32) -> u32 {
    ((x << k) | (x >> ((32 - k) as u32))) as u32
}

/// The rotation amount used in round `round` (the schedule repeats every 8 rounds).
pub open spec fn rotation_spec(round: nat) -> u32 {
    let r = round % 8;
    if r == 0 {
        13
    } else if r == 1 {
        15
    } else if r == 2 {
        26
    } else if r == 3 {
        6
    } else if r == 4 {
        17
    } else if r == 5 {
        29
    } else if r == 6 {
        16
    } else {
        24
    }
}

/// The parity word of the key schedule.
pub open spec fn key_parity(k0: u32, k1: u32) -> u32 {
    (0x1BD11BDAu32 ^ k0 ^ k1) as u32
}

/// The pair of key words injected at injection number `s`.
pub open spec fn injected_keys(k0: u32, k1: u32, s: nat) -> (u32, u32) {
    if s % 3 == 0 {
        (k0, k1)
    } else if s % 3 == 1 {
        (k1, key_parity(k0, k1))
    } else {
        (key_parity(k0, k1), k0)
    }
}

/// One mixing round (number `round`, counted from 0) applied to the state
/// `(x0, x1)`, including the key injection that follows every fourth round.
pub open spec fn round_spec(k0: u32, k1: u32, x0: u32, x1: u32, round: nat) -> (u32, u32) {
    let y0 = x0.wrapping_add(x1);
    let y1 = rotl32_spec(x1, rotation_spec(round)) ^ y0;
    if (round + 1) % 4 == 0 {
        let s = ((round + 1) / 4) as nat;
        let ks = injected_keys(k0, k1, s);
        (y0.wrapping_add(ks.0), y1.wrapping_add(ks.1).wrapping_add(s as u32))
    } else {
        (y0, y1)
    }
}

/// The cipher state after `n` rounds.
pub open spec fn state_after(k0: u32, k1: u32, ctr0: u32, ctr1: u32, n: nat) -> (u32, u32)
    decreases n,
{
    if n == 0 {
        (ctr0.wrapping_add(k0), ctr1.wrapping_add(k1))
    } else {
        let prev = state_after(k0, k1, ctr0, ctr1, (n - 1) as nat);
        round_spec(k0, k1, prev.0, prev.1, (n - 1) as nat)
    }
}

/// Threefry-2x32 with 20 rounds.
pub open spec fn threefry_spec(k0: u32, k1: u32, ctr0: u32, ctr1: u32) -> (u32, u32) {
    state_after(k0, k1, ctr0, ctr1, 20)
}

fn rotl32(x: u32, k: u32) -> (r: u32)
    requires
        0 < k < 32,
    ensures
        r == rotl32_spec(x, k),
{
    (x << k) | (x >> (32 - k))
}

fn rotation(round: u32) -> (r: u32)
    ensures
        r == rotation_spec(round as nat),
        6 <= r <= 29,
{
    match round % 8 {
        0 => 13,
        1 => 15,
        2 => 26,
        3 => 6,
        4 => 17,
        5 => 29,
        6 => 16,
        _ => 24,
    }
}

/// The Threefry-2x32-20 block function: both output words for key
/// `(k0, k1)` and counter `(ctr0, ctr1)`.
pub fn threefry_2x32(k0: u32, k1: u32, ctr0: u32, ctr1: u32) -> (r: (u32, u32))
    ensures
        r == threefry_spec(k0, k1, ctr0, ctr1),
{
    let k2 = 0x1BD11BDAu32 ^ k0 ^ k1;
    let mut x0 = ctr0.wrapping_add(k0);
    let mut x1 = ctr1.wrapping_add(k1);
    let mut round: u32 = 0;
    while round < 20
        invariant
            round <= 20,
            k2 == key_parity(k0, k1),
            (x0, x1) == state_after(k0, k1, ctr0, ctr1, round as nat),
        decreases 20 - round,
    {
        let ghost before = (x0, x1);
        x0 = x0.wrapping_add(x1);
        x1 = rotl32(x1, rotation(round));
        x1 = x1 ^ x0;
        if (round + 1) % 4 == 0 {
            let s: u32 = (round + 1) / 4;
            let (ks0, ks1) = match s % 3 {
                0 => (k0, k1),
                1 => (k1, k2),
                _ => (k2, k0),
            };
            x0 = x0.wrapping_add(ks0);
            x1 = x1.wrapping_add(ks1).wrapping_add(s);
        }
        proof {
            assert((x0, x1) == round_spec(k0, k1, before.0, before.1, round as nat));
        }
        round = round + 1;
    }
    (x0, x1)
}

/// The first output word of Threefry-2x32-20 for counter `(i, 0)`.
pub fn threefry_u32(k0: u32, k1: u32, i: u32) -> (r: u32)
    ensures
        r == threefry_spec(k0, k1, i, 0).0,
{
    threefry_2x32(k0, k1, i, 0).0
}

/// A rotation by `0 < k < 32` bits loses no bits.
proof fn lemma_rotl_injective(a: u32, b: u32, k: u32)
    requires
        0 < k < 32,
        rotl32_spec(a, k) == rotl32_spec(b, k),
    ensures
        a == b,
{
    assert(((a << k) | (a >> ((32 - k) as u32))) == ((b << k) | (b >> ((32 - k) as u32))) ==> a == b)
        by (bit_vector)
        requires
            0 < k < 32,
    ;
}

/// Equal words under the same xor are equal.
proof fn lemma_xor_cancel(a: u32, b: u32, c: u32)
    requires
        (a ^ c) == (b ^ c),
    ensures
        a == b,
{
    assert((a ^ c) == (b ^ c) ==> a == b) by (bit_vector);
}

/// Each round, key injection included, is one to one on the state.
proof fn lemma_round_injective(k0: u32, k1: u32, a0: u32, a1: u32, b0: u32, b1: u32, round: nat)
    requires
        round_spec(k0, k1, a0, a1, round) == round_spec(k0, k1, b0, b1, round),
    ensures
        a0 == b0 && a1 == b1,
{
    let r = rotation_spec(round);
    assert(6 <= r <= 29);
    let ya0 = a0.wrapping_add(a1);
    let yb0 = b0.wrapping_add(b1);
    let ya1 = rotl32_spec(a1, r) ^ ya0;
    let yb1 = rotl32_spec(b1, r) ^ yb0;
    if (round + 1) % 4 == 0 {
        let s = ((round + 1) / 4) as nat;
        let ks = injected_keys(k0, k1, s);
        assert(ya0.wrapping_add(ks.0) == yb0.wrapping_add(ks.0));
        assert(ya0 == yb0);
        assert(ya1.wrapping_add(ks.1).wrapping_add(s as u32) == yb1.wrapping_add(ks.1).wrapping_add(
            s as u32,
        ));
        assert(ya1.wrapping_add(ks.1) == yb1.wrapping_add(ks.1));
        assert(ya1 == yb1);
    } else {
        assert(ya0 == yb0 && ya1 == yb1);
    }
    lemma_xor_cancel(rotl32_spec(a1, r), rotl32_spec(b1, r), ya0);
    lemma_rotl_injective(a1, b1, r);
}

/// For a fixed key the state after any number of rounds is one to one in
/// the counter.
proof fn lemma_state_injective(k0: u32, k1: u32, c0: u32, c1: u32, d0: u32, d1: u32, n: nat)
    requires
        state_after(k0, k1, c0, c1, n) == state_after(k0, k1, d0, d1, n),
    ensures
        c0 == d0 && c1 == d1,
    decreases n,
{
    if n > 0 {
        let p = state_after(k0, k1, c0, c1, (n - 1) as nat);
        let q = state_after(k0, k1, d0, d1, (n - 1) as nat);
        lemma_round_injective(k0, k1, p.0, p.1, q.0, q.1, (n - 1) as nat);
        lemma_state_injective(k0, k1, c0, c1, d0, d1, (n - 1) as nat);
    }
}

/// For a fixed key, Threefry-2x32 maps distinct counters to distinct
/// outputs: every step (wrapping add, rotation, xor, key injection) is
/// invertible, so draws at different counters never coincide as pairs.
pub proof fn lemma_threefry_counter_injective(k0: u32, k1: u32, c0: u32, c1: u32, d0: u32, d1: u32)
    requires
        c0 != d0 || c1 != d1,
    ensures
        threefry_spec(k0, k1, c0, c1) != threefry_spec(k0, k1, d0, d1),
{
    if threefry_spec(k0, k1, c0, c1) == threefry_spec(k0, k1, d0, d1) {
        lemma_state_injective(k0, k1, c0, c1, d0, d1, 20);
    }
}

} // verus!
