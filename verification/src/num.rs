//! Integer helpers: saturation, rounding, and order statistics.
use vstd::prelude::*;
use vstd::relations;

verus! {

pub open spec fn clamped(x: int, low: int, high: int) -> int {
    if x < low {
        low
    } else if x > high {
        high
    } else {
        x
    }
}

pub open spec fn smaller(a: int, b: int) -> int {
    if a <= b {
        a
    } else {
        b
    }
}

pub open spec fn larger(a: int, b: int) -> int {
    if a >= b {
        a
    } else {
        b
    }
}

pub open spec fn magnitude(x: int) -> int {
    if x < 0 {
        -x
    } else {
        x
    }
}

/// -1, 0 or 1.
pub open spec fn sign(x: int) -> int {
    if x < 0 {
        -1
    } else if x > 0 {
        1
    } else {
        0
    }
}

/// Half of `x`, a half-count rounded away from zero.
pub open spec fn half_outward(x: int) -> int {
    if x >= 0 {
        (x + 1) / 2
    } else {
        -((1 - x) / 2)
    }
}

/// `x` as a 32-bit displacement, saturated.
pub open spec fn clamped32(x: int) -> i32 {
    clamped(x, i32::MIN as int, i32::MAX as int) as i32
}

/// `x` as an unsigned 64-bit number, saturated.
pub open spec fn clamped_u64(x: int) -> u64 {
    clamped(x, 0, u64::MAX as int) as u64
}

pub fn clamp32(x: i64) -> (r: i32)
    ensures
        r == clamped32(x as int),
{
    if x < i32::MIN as i64 {
        i32::MIN
    } else if x > i32::MAX as i64 {
        i32::MAX
    } else {
        x as i32
    }
}

pub fn sign64(x: i64) -> (r: i64)
    ensures
        r == sign(x as int),
{
    if x < 0 {
        -1
    } else if x > 0 {
        1
    } else {
        0
    }
}

pub fn magnitude64(x: i64) -> (r: i64)
    requires
        x > i64::MIN,
    ensures
        r == magnitude(x as int),
{
    if x < 0 {
        -x
    } else {
        x
    }
}

pub fn half_outward64(x: i64) -> (r: i64)
    requires
        i64::MIN / 2 < x < i64::MAX / 2,
    ensures
        r == half_outward(x as int),
{
    if x >= 0 {
        (x + 1) / 2
    } else {
        -((1 - x) / 2)
    }
}

pub fn saturating_add64(a: i64, b: i64) -> (r: i64)
    ensures
        r == clamped(a + b, i64::MIN as int, i64::MAX as int),
{
    match a.checked_add(b) {
        Some(sum) => sum,
        None => if b > 0 {
            i64::MAX
        } else {
            i64::MIN
        },
    }
}

pub fn saturating_mul_u64(a: u64, b: u64) -> (r: u64)
    ensures
        r == clamped_u64(a * b),
{
    proof {
        assert(a * b >= 0) by (nonlinear_arith)
            requires
                a >= 0,
                b >= 0,
        ;
    }
    match a.checked_mul(b) {
        Some(product) => product,
        None => u64::MAX,
    }
}

pub fn max_u64(a: u64, b: u64) -> (r: u64)
    ensures
        r == larger(a as int, b as int),
{
    if a >= b {
        a
    } else {
        b
    }
}

pub open spec fn at_most() -> spec_fn(u64, u64) -> bool {
    |a: u64, b: u64| a <= b
}

/// The numbers of `s` in ascending order.
pub open spec fn ascending(s: Seq<u64>) -> Seq<u64> {
    s.sort_by(at_most())
}

/// The upper median of a non-empty sequence.
pub open spec fn median(s: Seq<u64>) -> u64 {
    ascending(s)[(s.len() / 2) as int]
}

pub proof fn lemma_ascending(s: Seq<u64>)
    ensures
        ascending(s).len() == s.len(),
        ascending(s).to_multiset() == s.to_multiset(),
        relations::sorted_by(ascending(s), at_most()),
        forall|i: int| 0 <= i < s.len() ==> s.contains(#[trigger] ascending(s)[i]),
{
    s.lemma_sort_by_ensures(at_most());
    s.to_multiset_ensures();
    ascending(s).to_multiset_ensures();
    assert(ascending(s).len() == ascending(s).to_multiset().len());
    assert forall|i: int| 0 <= i < s.len() implies s.contains(#[trigger] ascending(s)[i]) by {
        assert(ascending(s).contains(ascending(s)[i]));
    }
}

/// A sorted sequence of the same numbers is the ascending one.
pub proof fn lemma_ascending_unique(s: Seq<u64>, t: Seq<u64>)
    requires
        relations::sorted_by(t, at_most()),
        t.to_multiset() == s.to_multiset(),
    ensures
        t == ascending(s),
{
    lemma_ascending(s);
    vstd::seq_lib::lemma_sorted_unique(t, ascending(s), at_most());
}

/// The numbers of `values` in ascending order.
pub fn sort(values: &Vec<u64>) -> (r: Vec<u64>)
    ensures
        r@ == ascending(values@),
        r@.len() == values@.len(),
{
    let mut out: Vec<u64> = Vec::new();
    let mut i: usize = 0;
    proof {
        assert(values@.take(0) =~= out@);
    }
    while i < values.len()
        invariant
            i <= values@.len(),
            relations::sorted_by(out@, at_most()),
            out@.to_multiset() == values@.take(i as int).to_multiset(),
        decreases values@.len() - i,
    {
        let value: u64 = values[i];
        let mut at: usize = 0;
        while at < out.len() && out[at] <= value
            invariant
                at <= out@.len(),
                relations::sorted_by(out@, at_most()),
                forall|j: int| 0 <= j < at ==> out@[j] <= value,
            decreases out@.len() - at,
        {
            at = at + 1;
        }
        let ghost before = out@;
        out.insert(at, value);
        proof {
            assert(relations::sorted_by(out@, at_most())) by {
                assert forall|a: int, b: int| 0 <= a < b < out@.len() implies (at_most())(
                    out@[a],
                    out@[b],
                ) by {
                    if a < at && b < at {
                        assert((at_most())(before[a], before[b]));
                    } else if a < at && b > at {
                        assert((at_most())(before[a], before[b - 1]));
                    } else if a == at && b > at {
                        if b - 1 > at {
                            assert((at_most())(before[at as int], before[b - 1]));
                        }
                    } else if a > at {
                        assert((at_most())(before[a - 1], before[b - 1]));
                    }
                }
            }
            assert(out@ == before.insert(at as int, value));
            vstd::seq_lib::to_multiset_insert(before, at as int, value);
            values@.take(i as int).to_multiset_ensures();
            assert(values@.take(i + 1) =~= values@.take(i as int).push(value));
        }
        i = i + 1;
    }
    proof {
        assert(values@.take(values@.len() as int) =~= values@);
        lemma_ascending_unique(values@, out@);
        lemma_ascending(values@);
    }
    out
}

/// Halving away from zero never loses motion and adds less than one count.
pub proof fn law_halves_round_outward(x: int)
    ensures
        x >= 0 ==> x <= 2 * half_outward(x) <= x + 1,
        x <= 0 ==> x - 1 <= 2 * half_outward(x) <= x,
        half_outward(-x) == -half_outward(x),
{
}

/// Clamping keeps what is in the range, and otherwise gives the end that is nearer.
pub proof fn law_clamping_gives_the_nearest(x: int, low: int, high: int)
    requires
        low <= high,
    ensures
        low <= clamped(x, low, high) <= high,
        forall|y: int|
            low <= y <= high ==> #[trigger] magnitude(x - clamped(x, low, high)) <= #[trigger] magnitude(
                x - y,
            ),
        magnitude(x) >= x && magnitude(x) >= -x && (magnitude(x) == x || magnitude(x) == -x),
        sign(x) * magnitude(x) == x,
{
    if x < 0 {
        assert(-1 * magnitude(x) == x);
    } else if x > 0 {
        assert(1 * magnitude(x) == x);
    } else {
        assert(0 * magnitude(x) == 0);
    }
}

} // verus!
