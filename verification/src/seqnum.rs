//! Wrap-safe arithmetic on 32-bit sequence numbers.
//!
//! Sequence numbers live on a circle of 2^32 points. Every ordering question
//! the engine asks goes through [`wrapping_lt`] and [`is_between_wrapped`].

use vstd::prelude::*;
use vstd::arithmetic::div_mod::{lemma_add_mod_noop, lemma_mod_twice, lemma_small_mod};

verus! {

/// Half of the sequence space: numbers exactly this far apart cannot be ordered.
pub const HALF_SPACE: u32 = 0x8000_0000;

/// The sequence number `n` steps after `a`: `(a + n) mod 2^32`.
#[verifier::opaque]
pub open spec fn seq_plus(a: u32, n: nat) -> u32 {
    ((a as nat + n) % 0x1_0000_0000) as u32
}

/// The distance from `b` forward to `a` on the circle: `(a - b) mod 2^32`.
pub open spec fn seq_minus(a: u32, b: u32) -> u32 {
    if a >= b {
        (a - b) as u32
    } else {
        (a - b + 0x1_0000_0000) as u32
    }
}

/// `lhs` precedes `rhs`: `(lhs - rhs) mod 2^32 > 2^31`.
pub open spec fn precedes(lhs: u32, rhs: u32) -> bool {
    seq_minus(lhs, rhs) > HALF_SPACE
}

/// `x` lies strictly between `start` and `end`.
pub open spec fn strictly_between(start: u32, x: u32, end: u32) -> bool {
    precedes(start, x) && precedes(x, end)
}

/// A step of less than 2^32 wraps around at most once.
pub proof fn lemma_seq_plus_small(a: u32, n: nat)
    requires
        n < 0x1_0000_0000,
    ensures
        seq_plus(a, n) == if a + n > u32::MAX {
            a + n - 0x1_0000_0000
        } else {
            a + n
        },
        seq_minus(seq_plus(a, n), a) == n,
{
    reveal(seq_plus);
}

/// Two steps in a row are one step of their sum.
pub proof fn lemma_seq_plus_twice(a: u32, n: nat, m: nat)
    ensures
        seq_plus(seq_plus(a, n), m) == seq_plus(a, n + m),
{
    reveal(seq_plus);
    let x = (a + n) as int;
    lemma_add_mod_noop(x, m as int, 0x1_0000_0000);
    lemma_add_mod_noop(x % 0x1_0000_0000, m as int, 0x1_0000_0000);
    lemma_mod_twice(x, 0x1_0000_0000);
}

/// Whether `lhs` precedes `rhs` in the sequence space (RFC 1323).
pub fn wrapping_lt(lhs: u32, rhs: u32) -> (r: bool)
    ensures
        r == precedes(lhs, rhs),
{
    lhs.wrapping_sub(rhs) > HALF_SPACE
}

/// Whether `x` lies in the open interval from `start` to `end`.
pub fn is_between_wrapped(start: u32, x: u32, end: u32) -> (r: bool)
    ensures
        r == strictly_between(start, x, end),
{
    wrapping_lt(start, x) && wrapping_lt(x, end)
}

/// Advances `a` by a length that need not fit in 32 bits.
pub fn advance(a: u32, n: usize) -> (r: u32)
    ensures
        r == seq_plus(a, n as nat),
{
    let m: u64 = (n as u64) % 0x1_0000_0000u64;
    let s: u64 = (a as u64 + m) % 0x1_0000_0000u64;
    proof {
        reveal(seq_plus);
        lemma_add_mod_noop(a as int, n as int, 0x1_0000_0000);
        lemma_small_mod(a as nat, 0x1_0000_0000);
    }
    s as u32
}

/// The sequence number after `a`.
pub fn successor(a: u32) -> (r: u32)
    ensures
        r == seq_plus(a, 1),
{
    proof {
        lemma_seq_plus_small(a, 1);
    }
    a.wrapping_add(1)
}

/// The sequence number before `a`.
pub fn predecessor(a: u32) -> (r: u32)
    ensures
        r == seq_minus(a, 1),
{
    a.wrapping_sub(1)
}

/// The distance from `b` forward to `a`.
pub fn distance(a: u32, b: u32) -> (r: u32)
    ensures
        r == seq_minus(a, b),
{
    a.wrapping_sub(b)
}

/// Every number lies between its predecessor and its second successor.
pub proof fn lemma_neighbours_enclose(a: u32)
    ensures
        strictly_between(seq_minus(a, 1), a, seq_plus(a, 2)),
{
    lemma_seq_plus_small(a, 2);
}

/// Of two numbers that are not exactly half the space apart, one precedes
/// the other if and only if they differ and the other does not precede it.
pub proof fn lemma_precedes_trichotomy(a: u32, b: u32)
    requires
        seq_minus(a, b) != HALF_SPACE,
    ensures
        precedes(a, b) <==> (!precedes(b, a) && a != b),
{
}

/// Two numbers exactly half the space apart are distinct, and neither
/// precedes the other.
pub proof fn lemma_antipodes_unordered(a: u32, b: u32)
    requires
        seq_minus(a, b) == HALF_SPACE,
    ensures
        !precedes(a, b),
        !precedes(b, a),
        a != b,
{
}

} // verus!
