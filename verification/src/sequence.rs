//! Sequence numbers that wrap around.
use vstd::prelude::*;

verus! {

/// The number after `seq`; zero follows the largest.
pub open spec fn seq_next(seq: u32) -> u32 {
    ((seq + 1) % 0x1_0000_0000) as u32
}

/// The number `n` places after `seq`.
pub open spec fn seq_ahead(seq: u32, n: int) -> u32 {
    ((seq + n) % 0x1_0000_0000) as u32
}

/// The steps that lead from `a` up to `b`, counting through the wrap.
pub open spec fn steps(a: u32, b: u32) -> int {
    (b - a) % 0x1_0000_0000
}

/// Whether `a` comes before `b`: `b` is ahead of `a` by at most half of the number circle.
pub open spec fn precedes(a: u32, b: u32) -> bool {
    0 < steps(a, b) <= 0x8000_0000
}

/// Whether `a` comes before `b` on the number circle.
pub fn seq_lt(a: u32, b: u32) -> (r: bool)
    ensures
        r == precedes(a, b),
{
    a.wrapping_sub(b) > u32::MAX / 2
}

/// Whether `a` comes after `b` on the number circle.
pub fn seq_gt(a: u32, b: u32) -> (r: bool)
    ensures
        r == precedes(b, a),
{
    seq_lt(b, a)
}

/// No number comes before itself, and each comes before its successor, across the wrap too.
pub proof fn law_seq_successor(a: u32)
    ensures
        !precedes(a, a),
        precedes(a, seq_next(a)),
        !precedes(seq_next(a), a),
{
}

/// Two different numbers are always ordered.
pub proof fn law_seq_total(a: u32, b: u32)
    requires
        a != b,
    ensures
        precedes(a, b) || precedes(b, a),
{
}

/// The order never runs both ways, except between numbers exactly half of the circle apart.
pub proof fn law_seq_asymmetric(a: u32, b: u32)
    requires
        steps(a, b) != 0x8000_0000,
        precedes(a, b),
    ensures
        !precedes(b, a),
{
}

/// Within one half of the circle the order is transitive.
pub proof fn law_seq_transitive(a: u32, b: u32, c: u32)
    requires
        precedes(a, b),
        precedes(b, c),
        steps(a, b) + steps(b, c) <= 0x8000_0000,
    ensures
        precedes(a, c),
{
}

/// The order goes by distance alone: a number comes before the one `d` places ahead of it exactly
/// where `d` is at least one and at most half of the circle, whatever the two numbers are.
pub proof fn law_order_is_by_distance(a: u32, b: u32, d: int, lt: bool, gt: bool)
    requires
        0 <= d < 0x1_0000_0000,
        a + d == b || a + d == b + 0x1_0000_0000,
        call_ensures(seq_lt, (a, b), lt),
        call_ensures(seq_gt, (b, a), gt),
    ensures
        lt <==> 1 <= d <= 0x8000_0000,
        gt <==> 1 <= d <= 0x8000_0000,
        precedes(a, b) <==> 1 <= d <= 0x8000_0000,
        call_requires(seq_lt, (a, b)),
        call_requires(seq_gt, (b, a)),
{
}

/// Counting on goes up by one and starts over after the largest number.
pub proof fn law_counting_wraps(a: u32, n: nat)
    ensures
        a < u32::MAX ==> seq_next(a) == a + 1,
        a == u32::MAX ==> seq_next(a) == 0,
        seq_ahead(a, 0) == a,
        seq_ahead(a, n as int + 1) == seq_next(seq_ahead(a, n as int)),
        a + steps(a, seq_ahead(a, n as int)) == seq_ahead(a, n as int) || a + steps(
            a,
            seq_ahead(a, n as int),
        ) == seq_ahead(a, n as int) + 0x1_0000_0000,
{
}

} // verus!
