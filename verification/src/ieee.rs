//! IEEE-754 numbers carried by their bit patterns.
//!
//! Poses, velocities and calibration results pass through this library as the
//! numbers the trackers and the solvers produced. The library never computes
//! with them: it moves them, and it compares them against its limits. Both are
//! exact on the bit pattern, so a [`Single`] is a `binary32` and a [`Double`] a
//! `binary64` held as an integer.
//!
//! What a pattern stands for is given by `value`, scaled by a fixed power of
//! two so that it is an integer: the represented number times 2^149 for a
//! [`Single`], times 2^1074 for a [`Double`]. The infinities take the integer
//! just beyond the largest finite value, which keeps every comparison right.

use vstd::arithmetic::power2::{lemma_pow2_adds, lemma_pow2_pos, lemma_pow2_strictly_increases, pow2};
use vstd::prelude::*;

verus! {

/// A `binary32` number, by its bit pattern.
#[derive(Clone, Copy, Debug, PartialEq, Eq, Structural)]
pub struct Single {
    pub bits: u32,
}

/// A `binary64` number, by its bit pattern.
#[derive(Clone, Copy, Debug, PartialEq, Eq, Structural)]
pub struct Double {
    pub bits: u64,
}

/// The magnitude that a biased exponent and a fraction of `width` bits stand
/// for, in units of the smallest subnormal.
pub open spec fn magnitude(exponent: nat, fraction: nat, width: nat) -> nat {
    if exponent == 0 {
        fraction
    } else {
        (pow2(width) + fraction) * pow2((exponent - 1) as nat)
    }
}

/// A larger exponent outweighs every fraction, and under one exponent the
/// fraction decides.
proof fn lemma_magnitude_increases(e1: nat, f1: nat, e2: nat, f2: nat, width: nat)
    requires
        f1 < pow2(width),
        f2 < pow2(width),
        e1 < e2 || (e1 == e2 && f1 < f2),
    ensures
        magnitude(e1, f1, width) < magnitude(e2, f2, width),
{
    let w = pow2(width);
    lemma_pow2_pos(width);
    if e1 == e2 {
        if e1 > 0 {
            let p = pow2((e1 - 1) as nat);
            lemma_pow2_pos((e1 - 1) as nat);
            assert((w + f1) * p < (w + f2) * p) by (nonlinear_arith)
                requires
                    f1 < f2,
                    p > 0,
            ;
        }
    } else {
        let p2 = pow2((e2 - 1) as nat);
        lemma_pow2_pos((e2 - 1) as nat);
        assert((w + f2) * p2 >= w * p2) by (nonlinear_arith)
            requires
                p2 > 0,
        ;
        if e1 == 0 {
            assert(w * p2 >= w) by (nonlinear_arith)
                requires
                    p2 > 0,
                    w > 0,
            ;
        } else {
            let p1 = pow2((e1 - 1) as nat);
            lemma_pow2_pos((e1 - 1) as nat);
            assert((w + f1) * p1 < (w + w) * p1) by (nonlinear_arith)
                requires
                    f1 < w,
                    p1 > 0,
            ;
            lemma_pow2_adds(1, (e1 - 1) as nat);
            vstd::arithmetic::power2::lemma2_to64();
            assert(pow2(e1) == 2 * p1);
            if e1 < e2 - 1 {
                lemma_pow2_strictly_increases(e1, (e2 - 1) as nat);
            }
            assert((w + w) * p1 <= w * p2) by (nonlinear_arith)
                requires
                    2 * p1 <= p2,
                    w > 0,
            ;
        }
    }
}

/// Numbers that the library can put in order.
pub trait Real: Copy {
    /// Whether the pattern is "not a number".
    spec fn nan(self) -> bool;

    /// The number times a fixed power of two.
    spec fn value(self) -> int;

    /// Whether `self` is smaller than `other`. Nothing is smaller or larger
    /// than "not a number".
    fn lt(self, other: Self) -> (r: bool)
        ensures
            r == (!self.nan() && !other.nan() && self.value() < other.value()),
    ;
}

impl Single {
    /// Whether the pattern is a number.
    pub fn is_number(self) -> (r: bool)
        ensures
            r == !self.nan(),
    {
        self.bits % 0x8000_0000 <= 0x7F80_0000
    }

    /// The sign-free part of the pattern.
    pub open spec fn unsigned_part(self) -> nat {
        (self.bits as nat) % 0x8000_0000
    }

    /// The distance from zero, times 2^149.
    pub open spec fn distance(self) -> nat {
        magnitude(self.unsigned_part() / 0x80_0000, self.unsigned_part() % 0x80_0000, 23)
    }

    /// Distances order as the sign-free parts do.
    proof fn lemma_distance_order(a: Single, b: Single)
        ensures
            a.unsigned_part() < b.unsigned_part() <==> a.distance() < b.distance(),
            a.unsigned_part() == b.unsigned_part() <==> a.distance() == b.distance(),
    {
        vstd::arithmetic::power2::lemma2_to64();
        let (x, y) = (a.unsigned_part(), b.unsigned_part());
        if x < y {
            lemma_magnitude_increases(
                x / 0x80_0000,
                x % 0x80_0000,
                y / 0x80_0000,
                y % 0x80_0000,
                23,
            );
        } else if y < x {
            lemma_magnitude_increases(
                y / 0x80_0000,
                y % 0x80_0000,
                x / 0x80_0000,
                x % 0x80_0000,
                23,
            );
        }
    }

    /// Whether the number is larger than the one whose pattern is `limit`.
    pub fn above(self, limit: u32) -> (r: bool)
        ensures
            r == self.exceeds(limit),
    {
        let bound = Single { bits: limit };
        bound.lt(self)
    }

    /// Whether the number is smaller than the one whose pattern is `limit`.
    pub fn below(self, limit: u32) -> (r: bool)
        ensures
            r == self.undercuts(limit),
    {
        let bound = Single { bits: limit };
        self.lt(bound)
    }

    /// The number is larger than the one whose pattern is `limit`.
    pub open spec fn exceeds(self, limit: u32) -> bool {
        less(Single { bits: limit }, self)
    }

    /// The number is smaller than the one whose pattern is `limit`.
    pub open spec fn undercuts(self, limit: u32) -> bool {
        less(self, Single { bits: limit })
    }
}

impl Real for Single {
    open spec fn nan(self) -> bool {
        self.unsigned_part() > 0x7F80_0000
    }

    open spec fn value(self) -> int {
        if self.bits < 0x8000_0000 {
            self.distance() as int
        } else {
            -(self.distance() as int)
        }
    }

    fn lt(self, other: Self) -> (r: bool) {
        let a: u32 = self.bits % 0x8000_0000;
        let b: u32 = other.bits % 0x8000_0000;
        proof {
            Single::lemma_distance_order(self, other);
            Single::lemma_distance_order(self, Single { bits: 0 });
            Single::lemma_distance_order(other, Single { bits: 0 });
            assert(Single { bits: 0 }.distance() == 0);
        }
        if a > 0x7F80_0000 || b > 0x7F80_0000 {
            false
        } else if self.bits < 0x8000_0000 {
            other.bits < 0x8000_0000 && a < b
        } else if other.bits < 0x8000_0000 {
            a > 0 || b > 0
        } else {
            b < a
        }
    }
}

impl Double {
    /// Whether the pattern is a number.
    pub fn is_number(self) -> (r: bool)
        ensures
            r == !self.nan(),
    {
        self.bits % 0x8000_0000_0000_0000 <= 0x7FF0_0000_0000_0000
    }

    /// The sign-free part of the pattern.
    pub open spec fn unsigned_part(self) -> nat {
        (self.bits as nat) % 0x8000_0000_0000_0000
    }

    /// The distance from zero, times 2^1074.
    pub open spec fn distance(self) -> nat {
        magnitude(
            self.unsigned_part() / 0x10_0000_0000_0000,
            self.unsigned_part() % 0x10_0000_0000_0000,
            52,
        )
    }

    /// Distances order as the sign-free parts do.
    proof fn lemma_distance_order(a: Double, b: Double)
        ensures
            a.unsigned_part() < b.unsigned_part() <==> a.distance() < b.distance(),
            a.unsigned_part() == b.unsigned_part() <==> a.distance() == b.distance(),
    {
        vstd::arithmetic::power2::lemma2_to64_rest();
        let (x, y) = (a.unsigned_part(), b.unsigned_part());
        if x < y {
            lemma_magnitude_increases(
                x / 0x10_0000_0000_0000,
                x % 0x10_0000_0000_0000,
                y / 0x10_0000_0000_0000,
                y % 0x10_0000_0000_0000,
                52,
            );
        } else if y < x {
            lemma_magnitude_increases(
                y / 0x10_0000_0000_0000,
                y % 0x10_0000_0000_0000,
                x / 0x10_0000_0000_0000,
                x % 0x10_0000_0000_0000,
                52,
            );
        }
    }

    /// Whether the number is larger than the one whose pattern is `limit`.
    pub fn above(self, limit: u64) -> (r: bool)
        ensures
            r == self.exceeds(limit),
    {
        let bound = Double { bits: limit };
        bound.lt(self)
    }

    /// Whether the number is smaller than the one whose pattern is `limit`.
    pub fn below(self, limit: u64) -> (r: bool)
        ensures
            r == self.undercuts(limit),
    {
        let bound = Double { bits: limit };
        self.lt(bound)
    }

    /// The number is larger than the one whose pattern is `limit`.
    pub open spec fn exceeds(self, limit: u64) -> bool {
        less(Double { bits: limit }, self)
    }

    /// The number is smaller than the one whose pattern is `limit`.
    pub open spec fn undercuts(self, limit: u64) -> bool {
        less(self, Double { bits: limit })
    }

    /// `self` held within `limit` of zero, where `limit` is the pattern of a
    /// positive number.
    pub fn clamp_to(self, limit: u64) -> (r: Double)
        requires
            0 < limit <= 0x7FF0_0000_0000_0000,
        ensures
            r == self.clamped(limit),
    {
        if self.above(limit) {
            Double { bits: limit }
        } else if self.below(limit + 0x8000_0000_0000_0000) {
            Double { bits: limit + 0x8000_0000_0000_0000 }
        } else {
            self
        }
    }

    /// The bound nearest to `self` where `self` lies outside the bounds, and
    /// `self` where it does not.
    pub open spec fn clamped(self, limit: u64) -> Double {
        let low = (limit + 0x8000_0000_0000_0000) as u64;
        if self.exceeds(limit) {
            Double { bits: limit }
        } else if self.undercuts(low) {
            Double { bits: low }
        } else {
            self
        }
    }
}

impl Real for Double {
    open spec fn nan(self) -> bool {
        self.unsigned_part() > 0x7FF0_0000_0000_0000
    }

    open spec fn value(self) -> int {
        if self.bits < 0x8000_0000_0000_0000 {
            self.distance() as int
        } else {
            -(self.distance() as int)
        }
    }

    fn lt(self, other: Self) -> (r: bool) {
        let a: u64 = self.bits % 0x8000_0000_0000_0000;
        let b: u64 = other.bits % 0x8000_0000_0000_0000;
        proof {
            Double::lemma_distance_order(self, other);
            Double::lemma_distance_order(self, Double { bits: 0 });
            Double::lemma_distance_order(other, Double { bits: 0 });
            assert(Double { bits: 0 }.distance() == 0);
        }
        if a > 0x7FF0_0000_0000_0000 || b > 0x7FF0_0000_0000_0000 {
            false
        } else if self.bits < 0x8000_0000_0000_0000 {
            other.bits < 0x8000_0000_0000_0000 && a < b
        } else if other.bits < 0x8000_0000_0000_0000 {
            a > 0 || b > 0
        } else {
            b < a
        }
    }
}

/// Patterns without a sign order as the numbers they stand for.
pub proof fn lemma_double_order(a: u64, b: u64)
    requires
        a <= b <= 0x7FF0_0000_0000_0000,
    ensures
        (Double { bits: a }).value() <= (Double { bits: b }).value(),
        !(Double { bits: a }).nan(),
        !(Double { bits: b }).nan(),
{
    Double::lemma_distance_order(Double { bits: a }, Double { bits: b });
}

/// The order of two numbers, with "not a number" outside it.
pub open spec fn less<R: Real>(a: R, b: R) -> bool {
    !a.nan() && !b.nan() && a.value() < b.value()
}

/// Every element is a number.
pub open spec fn all_numbers<R: Real>(s: Seq<R>) -> bool {
    forall|i: int| 0 <= i < s.len() ==> !(#[trigger] s[i]).nan()
}

/// No element is smaller than one before it.
pub open spec fn ascending<R: Real>(s: Seq<R>) -> bool {
    forall|i: int, j: int|
        0 <= i <= j < s.len() ==> (#[trigger] s[i]).value() <= (#[trigger] s[j]).value()
}

/// `m` is the element in the middle of `s` once `s` is put in ascending
/// order; of an even number of elements, the upper of the two.
pub open spec fn is_median<R: Real>(s: Seq<R>, m: R) -> bool {
    exists|sorted: Seq<R>|
        {
            &&& #[trigger] ascending(sorted)
            &&& sorted.to_multiset() == s.to_multiset()
            &&& m == sorted[(s.len() / 2) as int]
        }
}

/// `m` stands in the middle of `s`: it is the median where every element is a
/// number. "Not a number" has no place in an order, so next to one any element may
/// come to stand there.
pub open spec fn is_mid<R: Real>(s: Seq<R>, m: R) -> bool {
    s.contains(m) && (all_numbers(s) ==> is_median(s, m))
}

/// `s` with its elements in ascending order, where all are numbers. "Not a number"
/// counts as equal to everything.
fn sorted_copy<R: Real>(s: &Vec<R>) -> (r: Vec<R>)
    ensures
        all_numbers(s@) ==> ascending(r@),
        r@.len() == s@.len(),
        r@.to_multiset() == s@.to_multiset(),
        forall|k: int| 0 <= k < r@.len() ==> s@.contains(#[trigger] r@[k]),
{
    let mut out: Vec<R> = Vec::new();
    let mut i: usize = 0;
    proof {
        assert(s@.take(0) =~= Seq::<R>::empty());
    }
    while i < s.len()
        invariant
            i <= s.len(),
            all_numbers(s@) ==> all_numbers(out@) && ascending(out@),
            out@.len() == i,
            out@.to_multiset() == s@.take(i as int).to_multiset(),
            forall|k: int| 0 <= k < out@.len() ==> s@.contains(#[trigger] out@[k]),
        decreases s.len() - i,
    {
        let x = s[i];
        let mut at: usize = out.len();
        while at > 0 && x.lt(out[at - 1])
            invariant
                at <= out.len(),
                all_numbers(s@) ==> !x.nan() && all_numbers(out@) && ascending(out@),
                forall|k: int| at <= k < out@.len() ==> x.value() < (#[trigger] out@[k]).value(),
            decreases at,
        {
            at = at - 1;
        }
        let ghost before = out@;
        out.insert(at, x);
        proof {
            assert(out@ =~= before.insert(at as int, x));
            broadcast use vstd::seq_lib::group_to_multiset_ensures;
            assert(s@.take(i + 1) =~= s@.take(i as int).push(x));
            assert(out@.remove(at as int) =~= before);
            assert(out@[at as int] == x);
            out@.to_multiset_ensures();
            s@.take(i as int).to_multiset_ensures();
            assert(out@.contains(x));
            assert(out@.to_multiset() =~= before.to_multiset().insert(x));
            assert(s@.contains(s@[i as int]));
            assert forall|a: int, b: int|
                all_numbers(s@) && 0 <= a <= b < out@.len() implies (#[trigger] out@[a]).value()
                <= (#[trigger] out@[b]).value() by {
                let pa = if a < at { a } else { a - 1 };
                let pb = if b < at { b } else { b - 1 };
                if a != at && b != at {
                    assert(before[pa].value() <= before[pb].value());
                } else if a == at && b > at {
                    assert(before[pb].value() > x.value());
                } else if b == at && a < at {
                    assert(before[pa].value() <= before[at - 1].value());
                }
            }
        }
        i = i + 1;
    }
    proof {
        assert(s@.take(s@.len() as int) =~= s@);
    }
    out
}

/// What stands in the middle of `s`: its median, where all are numbers.
pub fn median<R: Real>(s: &Vec<R>) -> (r: R)
    requires
        s@.len() > 0,
    ensures
        is_mid(s@, r),
{
    let sorted = sorted_copy(s);
    let m = sorted[sorted.len() / 2];
    proof {
        assert(s@.contains(m));
        if all_numbers(s@) {
            assert(ascending(sorted@));
        }
    }
    m
}

/// `m` is `floor` or an element of `s`, and nothing among these exceeds it.
pub open spec fn is_greatest<R: Real>(floor: R, s: Seq<R>, m: R) -> bool {
    &&& m == floor || s.contains(m)
    &&& !less(m, floor)
    &&& forall|i: int| 0 <= i < s.len() ==> !less(m, #[trigger] s[i])
}

/// The largest of `floor` and the elements of `s`; "not a number" is passed
/// over.
pub fn greatest<R: Real>(floor: R, s: &Vec<R>) -> (r: R)
    requires
        !floor.nan(),
    ensures
        is_greatest(floor, s@, r),
        !r.nan(),
{
    let mut best = floor;
    let mut i: usize = 0;
    while i < s.len()
        invariant
            i <= s.len(),
            !best.nan(),
            !floor.nan(),
            best == floor || s@.contains(best),
            floor.value() <= best.value(),
            forall|k: int| 0 <= k < i ==> !less(best, #[trigger] s@[k]),
        decreases s.len() - i,
    {
        if best.lt(s[i]) {
            best = s[i];
        }
        i = i + 1;
    }
    best
}

/// Numbers order as their patterns do: those without a sign as the patterns, those
/// with one the other way round, and any with a sign comes before any without, but
/// for the two zeros, of which neither is smaller. "Not a number" is outside the
/// order.
pub proof fn numbers_order_as_their_patterns(a: u32, b: u32)
    ensures
        a <= 0x7F80_0000 && b <= 0x7F80_0000 ==> (less(Single { bits: a }, Single { bits: b })
            <==> a < b),
        0x8000_0000 <= a <= 0xFF80_0000 && 0x8000_0000 <= b <= 0xFF80_0000 ==> (less(
            Single { bits: a },
            Single { bits: b },
        ) <==> b < a),
        0x8000_0000 <= a <= 0xFF80_0000 && b <= 0x7F80_0000 ==> !less(
            Single { bits: b },
            Single { bits: a },
        ) && (less(Single { bits: a }, Single { bits: b }) <==> a != 0x8000_0000 || b != 0),
        0x7F80_0000 < a < 0x8000_0000 || a > 0xFF80_0000 ==> !less(
            Single { bits: a },
            Single { bits: b },
        ) && !less(Single { bits: b }, Single { bits: a }),
{
    let (x, y) = (Single { bits: a }, Single { bits: b });
    Single::lemma_distance_order(x, y);
    Single::lemma_distance_order(y, x);
    Single::lemma_distance_order(x, Single { bits: 0 });
    Single::lemma_distance_order(y, Single { bits: 0 });
    assert((Single { bits: 0 }).distance() == 0);
}

/// The same of the longer patterns.
pub proof fn doubles_order_as_their_patterns(a: u64, b: u64)
    ensures
        a <= 0x7FF0_0000_0000_0000 && b <= 0x7FF0_0000_0000_0000 ==> (less(
            Double { bits: a },
            Double { bits: b },
        ) <==> a < b),
        0x8000_0000_0000_0000 <= a <= 0xFFF0_0000_0000_0000 && b <= 0x7FF0_0000_0000_0000
            ==> !less(Double { bits: b }, Double { bits: a }) && (less(
            Double { bits: a },
            Double { bits: b },
        ) <==> a != 0x8000_0000_0000_0000 || b != 0),
        0x7FF0_0000_0000_0000 < a < 0x8000_0000_0000_0000 || a > 0xFFF0_0000_0000_0000 ==> !less(
            Double { bits: a },
            Double { bits: b },
        ) && !less(Double { bits: b }, Double { bits: a }),
{
    let (x, y) = (Double { bits: a }, Double { bits: b });
    Double::lemma_distance_order(x, y);
    Double::lemma_distance_order(y, x);
    Double::lemma_distance_order(x, Double { bits: 0 });
    Double::lemma_distance_order(y, Double { bits: 0 });
    assert((Double { bits: 0 }).distance() == 0);
}

/// What is clamped lies within its bounds, and is left as it is where it lay there
/// before; "not a number" stays what it is.
pub proof fn a_clamped_number_is_within_bounds(x: Double, limit: u64)
    requires
        0 < limit <= 0x7FF0_0000_0000_0000,
    ensures
        ({
            let high = Double { bits: limit };
            let low = Double { bits: (limit + 0x8000_0000_0000_0000) as u64 };
            let r = x.clamped(limit);
            &&& !less(high, r) && !less(r, low)
            &&& !less(high, x) && !less(x, low) ==> r == x
            &&& less(high, x) ==> r == high
            &&& less(x, low) ==> r == low
        }),
{
    doubles_order_as_their_patterns((limit + 0x8000_0000_0000_0000) as u64, limit);
}

} // verus!
