//! The keyed permutation of pairs of 61-bit halves.
use vstd::prelude::*;

verus! {

/// The low 61 bits of a word: the width of each Feistel half.
pub const MASK61: u128 = 0x1fff_ffff_ffff_ffff;

/// Number of Feistel rounds applied to an index.
pub const ROUNDS: usize = 4;

/// Number of entries in the round-constant table.
pub const ROUND_CONSTANT_COUNT: usize = 8;

/// Odd multiplier used by the round function to mix bits.
pub const MULTIPLIER: u128 = 0x6c8e_944d_1f5a_a3b7;

/// The round-constant table; only the first `ROUNDS` entries are used.
pub open spec fn round_constant(round: int) -> u128 {
    if round == 0 {
        0x47f5_417d_6b82_b5d1
    } else if round == 1 {
        0x90a7_c5fe_8c34_5af2
    } else if round == 2 {
        0xd879_6c3b_2a1e_4f8d
    } else if round == 3 {
        0x6f4a_3c8e_7d5b_9102
    } else if round == 4 {
        0xb3f8_c7d6_e5a4_9201
    } else if round == 5 {
        0x2d9e_8b7c_6f5a_3d4e
    } else if round == 6 {
        0xa1b2_c3d4_e5f6_789a
    } else {
        0x1234_5678_9abc_def0
    }
}

/// Rotation of a 61-bit value `x` left by `k` bits, within 61 bits.
pub open spec fn rotl61(x: u128, k: u128) -> u128 {
    ((x << k) | (x >> ((61 - k) as u128))) & MASK61
}

/// The round function: xor with the round constant, rotate by 7, multiply,
/// rotate by 13, all kept to 61 bits.
pub open spec fn round_fn(block: u128, round: int) -> u128 {
    let r1 = block ^ (round_constant(round) & MASK61);
    let r2 = rotl61(r1, 7);
    let r3 = ((r2 * MULTIPLIER) as u128) & MASK61;
    rotl61(r3, 13)
}

/// The halves after the first `n` rounds, starting from `(left, right)`.
/// Round `k` maps `(l, r)` to `(r, l ^ f_k(r))`.
pub open spec fn feistel_rounds(left: u128, right: u128, n: nat) -> (u128, u128)
    decreases n,
{
    if n == 0 {
        (left, right)
    } else {
        let p = feistel_rounds(left, right, (n - 1) as nat);
        (p.1, p.0 ^ (round_fn(p.1, n - 1) & MASK61))
    }
}

/// The halves after undoing rounds `n - 1` down to `0`, starting from
/// `(left, right)`. Undoing round `k` maps `(l, r)` to `(r ^ f_k(l), l)`.
pub open spec fn unfeistel_rounds(left: u128, right: u128, n: nat) -> (u128, u128)
    decreases n,
{
    if n == 0 {
        (left, right)
    } else {
        unfeistel_rounds(right ^ (round_fn(left, n - 1) & MASK61), left, (n - 1) as nat)
    }
}

proof fn lemma_xor_bound(a: u128, b: u128)
    requires
        a <= MASK61,
    ensures
        a ^ (b & MASK61) <= MASK61,
{
    assert(a <= 0x1fff_ffff_ffff_ffff ==> a ^ (b & 0x1fff_ffff_ffff_ffff) <= 0x1fff_ffff_ffff_ffff)
        by (bit_vector);
}

proof fn lemma_xor_cancel(a: u128, b: u128)
    ensures
        (a ^ b) ^ b == a,
{
    assert((a ^ b) ^ b == a) by (bit_vector);
}

/// Every round keeps both halves within 61 bits.
pub proof fn lemma_rounds_bounded(left: u128, right: u128, n: nat)
    requires
        left <= MASK61,
        right <= MASK61,
    ensures
        feistel_rounds(left, right, n).0 <= MASK61,
        feistel_rounds(left, right, n).1 <= MASK61,
    decreases n,
{
    if n > 0 {
        lemma_rounds_bounded(left, right, (n - 1) as nat);
        let p = feistel_rounds(left, right, (n - 1) as nat);
        lemma_xor_bound(p.0, round_fn(p.1, n - 1));
    }
}

/// Undoing rounds keeps both halves within 61 bits.
pub proof fn lemma_unrounds_bounded(left: u128, right: u128, n: nat)
    requires
        left <= MASK61,
        right <= MASK61,
    ensures
        unfeistel_rounds(left, right, n).0 <= MASK61,
        unfeistel_rounds(left, right, n).1 <= MASK61,
    decreases n,
{
    if n > 0 {
        lemma_xor_bound(right, round_fn(left, n - 1));
        lemma_unrounds_bounded(right ^ (round_fn(left, n - 1) & MASK61), left, (n - 1) as nat);
    }
}

/// Undoing `n` rounds after applying them gives back the starting halves.
pub proof fn lemma_unrounds_rounds(left: u128, right: u128, n: nat)
    ensures
        unfeistel_rounds(feistel_rounds(left, right, n).0, feistel_rounds(left, right, n).1, n)
            == (left, right),
    decreases n,
{
    if n > 0 {
        let p = feistel_rounds(left, right, (n - 1) as nat);
        lemma_xor_cancel(p.0, round_fn(p.1, n - 1) & MASK61);
        lemma_unrounds_rounds(left, right, (n - 1) as nat);
    }
}

/// Applying `n` rounds after undoing them gives back the starting halves.
pub proof fn lemma_rounds_unrounds(left: u128, right: u128, n: nat)
    ensures
        feistel_rounds(unfeistel_rounds(left, right, n).0, unfeistel_rounds(left, right, n).1, n)
            == (left, right),
    decreases n,
{
    if n > 0 {
        let l = right ^ (round_fn(left, n - 1) & MASK61);
        lemma_rounds_unrounds(l, left, (n - 1) as nat);
        lemma_xor_cancel(right, round_fn(left, n - 1) & MASK61);
    }
}

/// Entry `round` of the round-constant table.
pub fn round_constant_at(round: usize) -> (c: u128)
    requires
        round < ROUND_CONSTANT_COUNT,
    ensures
        c == round_constant(round as int),
{
    match round {
        0 => 0x47f5_417d_6b82_b5d1,
        1 => 0x90a7_c5fe_8c34_5af2,
        2 => 0xd879_6c3b_2a1e_4f8d,
        3 => 0x6f4a_3c8e_7d5b_9102,
        4 => 0xb3f8_c7d6_e5a4_9201,
        5 => 0x2d9e_8b7c_6f5a_3d4e,
        6 => 0xa1b2_c3d4_e5f6_789a,
        _ => 0x1234_5678_9abc_def0,
    }
}

/// The round function applied to a 61-bit `block` with constant number `rounds`.
pub fn feistel(block: u128, rounds: usize) -> (r: u128)
    requires
        block <= MASK61,
        rounds < ROUND_CONSTANT_COUNT,
    ensures
        r == round_fn(block, rounds as int),
        r <= MASK61,
{
    let r1 = block ^ (round_constant_at(rounds) & MASK61);
    let r2 = ((r1 << 7u128) | (r1 >> 54u128)) & MASK61;
    assert(r2 <= MASK61 && r2 <= 0x1fff_ffff_ffff_ffff) by (bit_vector)
        requires
            r2 == ((r1 << 7u128) | (r1 >> 54u128)) & 0x1fff_ffff_ffff_ffff,
    ;
    assert(r2 * MULTIPLIER < 0x1_0000_0000_0000_0000_0000_0000_0000_0000) by (nonlinear_arith)
        requires
            r2 <= 0x1fff_ffff_ffff_ffff,
            MULTIPLIER == 0x6c8e_944d_1f5a_a3b7,
    ;
    let r3 = (r2 * MULTIPLIER) & MASK61;
    let r4 = ((r3 << 13u128) | (r3 >> 48u128)) & MASK61;
    assert(r4 <= 0x1fff_ffff_ffff_ffff) by (bit_vector)
        requires
            r4 == ((r3 << 13u128) | (r3 >> 48u128)) & 0x1fff_ffff_ffff_ffff,
    ;
    r4
}

/// Applies all `ROUNDS` rounds to the halves `(left, right)`.
pub fn permute(left: u128, right: u128) -> (r: (u128, u128))
    requires
        left <= MASK61,
        right <= MASK61,
    ensures
        r == feistel_rounds(left, right, ROUNDS as nat),
        r.0 <= MASK61,
        r.1 <= MASK61,
{
    let mut l = left;
    let mut r = right;
    let mut x: usize = 0;
    while x < ROUNDS
        invariant
            x <= ROUNDS,
            (l, r) == feistel_rounds(left, right, x as nat),
            l <= MASK61,
            r <= MASK61,
        decreases ROUNDS - x,
    {
        let calculated = feistel(r, x);
        let new_right = l ^ (calculated & MASK61);
        proof {
            lemma_xor_bound(l, calculated);
        }
        l = r;
        r = new_right;
        x = x + 1;
    }
    (l, r)
}

/// Undoes all `ROUNDS` rounds, last round first.
pub fn unpermute(left: u128, right: u128) -> (r: (u128, u128))
    requires
        left <= MASK61,
        right <= MASK61,
    ensures
        r == unfeistel_rounds(left, right, ROUNDS as nat),
        r.0 <= MASK61,
        r.1 <= MASK61,
{
    let mut l = left;
    let mut r = right;
    let mut x: usize = ROUNDS;
    while x > 0
        invariant
            x <= ROUNDS,
            unfeistel_rounds(l, r, x as nat) == unfeistel_rounds(left, right, ROUNDS as nat),
            l <= MASK61,
            r <= MASK61,
        decreases x,
    {
        let calculated = feistel(l, x - 1);
        let old_left = r ^ (calculated & MASK61);
        proof {
            lemma_xor_bound(r, calculated);
        }
        r = l;
        l = old_left;
        x = x - 1;
    }
    (l, r)
}

} // verus!
