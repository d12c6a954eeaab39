//! Binary64 numbers as bit patterns: what they are worth, how they are ordered, and how they round.

use vstd::arithmetic::power2::{
    lemma2_to64, lemma2_to64_rest, lemma_pow2_adds, lemma_pow2_pos, lemma_pow2_strictly_increases, pow2,
};
use vstd::prelude::*;
use vstd::relations::{sorted_by, total_ordering};
use vstd::seq_lib::{group_to_multiset_ensures, lemma_sorted_unique};

verus! {

/// The lowest pattern with the sign bit set.
pub const SIGN_BIT: u64 = 0x8000_0000_0000_0000;

/// The pattern of positive infinity. Larger magnitudes are not numbers.
pub const INFINITY_BITS: u64 = 0x7ff0_0000_0000_0000;

/// The weight of the leading one that a normal number does not store.
pub const LEADING_ONE: u64 = 0x0010_0000_0000_0000;

/// The pattern of ten.
pub const TEN_BITS: u64 = 0x4024_0000_0000_0000;

/// The pattern of twenty-five.
pub const TWENTY_FIVE_BITS: u64 = 0x4039_0000_0000_0000;

/// The pattern of one hundred.
pub const HUNDRED_BITS: u64 = 0x4059_0000_0000_0000;

/// The pattern of five hundred.
pub const FIVE_HUNDRED_BITS: u64 = 0x407f_4000_0000_0000;

/// An IEEE 754 binary64 number, held as its bit pattern.
///
/// The library stores, compares, orders and rounds such numbers; arithmetic on them and printing
/// them is left to the program around it.
#[derive(Clone, Copy, Debug, PartialEq, Eq, Structural)]
pub struct Binary64 {
    /// Sign, exponent and fraction, from the highest bit down.
    pub bits: u64,
}

/// The worth of the non-negative pattern `magnitude`, in units of the smallest positive number,
/// two to the power of minus 1074. An infinity counts as two to the power of 1024.
pub open spec fn units(magnitude: int) -> int {
    let exponent = magnitude / LEADING_ONE as int;
    if exponent == 0 {
        magnitude
    } else {
        (magnitude % LEADING_ONE as int + LEADING_ONE) * pow2((exponent - 1) as nat)
    }
}

/// How many units make one.
pub open spec fn one() -> int {
    pow2(1074) as int
}

impl Binary64 {
    /// Whether the sign bit is set.
    pub open spec fn negative(self) -> bool {
        self.bits >= SIGN_BIT
    }

    /// The pattern without its sign bit.
    pub open spec fn magnitude(self) -> int {
        if self.negative() {
            self.bits - SIGN_BIT
        } else {
            self.bits as int
        }
    }

    /// Whether the pattern stands for no number.
    pub open spec fn nan(self) -> bool {
        self.magnitude() > INFINITY_BITS
    }

    /// The number, in units of two to the power of minus 1074.
    pub open spec fn value(self) -> int {
        if self.negative() {
            -units(self.magnitude())
        } else {
            units(self.magnitude())
        }
    }

    /// The place of the pattern in the total order of IEEE 754, which tells the two zeros apart
    /// and gives every pattern that is not a number a place at one of the ends.
    pub open spec fn rank(self) -> int {
        if self.negative() {
            -1 - self.magnitude()
        } else {
            self.magnitude()
        }
    }

    /// The nearest whole number, halves away from zero, brought into the range of `u64`;
    /// zero for a pattern that is not a number.
    pub open spec fn nearest(self) -> int {
        let whole = (self.value() + pow2(1073)) / one();
        if self.nan() || self.value() <= 0 {
            0
        } else if whole > u64::MAX {
            u64::MAX as int
        } else {
            whole
        }
    }
}

/// Magnitudes are ordered as the numbers they stand for.
pub proof fn lemma_units_strictly_increase(a: int, b: int)
    requires
        0 <= a < b,
    ensures
        units(a) < units(b),
{
    let h = LEADING_ONE as int;
    let ea = a / h;
    let eb = b / h;
    assert(ea <= eb) by (nonlinear_arith)
        requires
            0 <= a < b,
            h == 0x0010_0000_0000_0000,
            ea == a / h,
            eb == b / h,
    ;
    if ea == eb {
        if ea > 0 {
            let p = pow2((ea - 1) as nat) as int;
            lemma_pow2_pos((ea - 1) as nat);
            let sa = a % h + h;
            let sb = b % h + h;
            assert(sa < sb);
            assert(sa * p < sb * p) by (nonlinear_arith)
                requires
                    sa < sb,
                    p > 0,
            ;
        }
    } else {
        let q = pow2((eb - 1) as nat) as int;
        lemma_pow2_pos((eb - 1) as nat);
        let sb = b % h + h;
        assert(sb * q >= h * q) by (nonlinear_arith)
            requires
                sb >= h,
                q > 0,
        ;
        if ea == 0 {
            assert(h * q >= h) by (nonlinear_arith)
                requires
                    q >= 1,
                    h > 0,
            ;
        } else {
            let p = pow2((ea - 1) as nat) as int;
            lemma_pow2_pos((ea - 1) as nat);
            if ea < eb - 1 {
                lemma_pow2_strictly_increases(ea as nat, (eb - 1) as nat);
            }
            lemma_pow2_adds(1, (ea - 1) as nat);
            lemma2_to64();
            let sa = a % h + h;
            assert(sa < 2 * h);
            assert(sa * p < h * q) by (nonlinear_arith)
                requires
                    sa < 2 * h,
                    p > 0,
                    2 * p <= q,
                    h > 0,
            ;
        }
    }
}

/// A magnitude is worth nothing exactly when it is zero.
proof fn lemma_units_of_zero(a: int)
    requires
        a >= 0,
    ensures
        units(a) >= 0,
        units(a) == 0 <==> a == 0,
{
    assert(units(0) == 0);
    if a > 0 {
        lemma_units_strictly_increase(0, a);
    }
}

/// Among numbers, the total order agrees with the order of the values: whatever comes later is
/// not smaller, and whatever is larger comes later.
pub proof fn lemma_rank_follows_value(a: Binary64, b: Binary64)
    ensures
        a.rank() <= b.rank() ==> a.value() <= b.value(),
        a.value() < b.value() ==> a.rank() < b.rank(),
{
    lemma_units_of_zero(a.magnitude());
    lemma_units_of_zero(b.magnitude());
    if a.magnitude() < b.magnitude() {
        lemma_units_strictly_increase(a.magnitude(), b.magnitude());
    }
    if b.magnitude() < a.magnitude() {
        lemma_units_strictly_increase(b.magnitude(), a.magnitude());
    }
}

/// A normal number whose significand is `whole` shifted up by `shift` is worth `whole`, if its
/// exponent undoes the shift.
proof fn lemma_units_of_whole(magnitude: int, whole: int, shift: nat)
    requires
        magnitude / LEADING_ONE as int == 1075 - shift,
        magnitude % LEADING_ONE as int + LEADING_ONE == whole * pow2(shift),
        shift < 64,
    ensures
        units(magnitude) == whole * one(),
{
    let rest = (1074 - shift) as nat;
    lemma_pow2_adds(shift, rest);
    let p = pow2(shift) as int;
    let q = pow2(rest) as int;
    assert((whole * p) * q == whole * (p * q)) by (nonlinear_arith);
}

/// The pattern constants stand for the numbers that they are named after.
pub proof fn lemma_named_numbers()
    ensures
        units(TEN_BITS as int) == 10 * one(),
        units(TWENTY_FIVE_BITS as int) == 25 * one(),
        units(HUNDRED_BITS as int) == 100 * one(),
        units(FIVE_HUNDRED_BITS as int) == 500 * one(),
{
    lemma2_to64();
    lemma2_to64_rest();
    lemma_units_of_whole(TEN_BITS as int, 10, 49);
    lemma_units_of_whole(TWENTY_FIVE_BITS as int, 25, 48);
    lemma_units_of_whole(HUNDRED_BITS as int, 100, 46);
    lemma_units_of_whole(FIVE_HUNDRED_BITS as int, 500, 44);
}

impl Binary64 {
    /// The pattern without its sign bit.
    fn magnitude_bits(self) -> (r: u64)
        ensures
            r == self.magnitude(),
    {
        if self.bits >= SIGN_BIT {
            self.bits - SIGN_BIT
        } else {
            self.bits
        }
    }

    /// Whether the pattern stands for no number.
    pub fn is_nan(self) -> (r: bool)
        ensures
            r == self.nan(),
    {
        self.magnitude_bits() > INFINITY_BITS
    }

    /// Whether the number equals zero, of either sign.
    pub fn is_zero(self) -> (r: bool)
        ensures
            r == (!self.nan() && self.value() == 0),
    {
        proof {
            lemma_units_of_zero(self.magnitude());
        }
        self.magnitude_bits() == 0
    }

    /// Whether the number is greater than zero.
    pub fn is_positive(self) -> (r: bool)
        ensures
            r == (!self.nan() && self.value() > 0),
    {
        proof {
            lemma_units_of_zero(self.magnitude());
        }
        0 < self.bits && self.bits <= INFINITY_BITS
    }

    /// Whether both are numbers and this one is not below `other`.
    pub fn at_least(self, other: Binary64) -> (r: bool)
        ensures
            r == (!self.nan() && !other.nan() && self.value() >= other.value()),
    {
        proof {
            lemma_units_of_zero(self.magnitude());
            lemma_units_of_zero(other.magnitude());
            if self.magnitude() < other.magnitude() {
                lemma_units_strictly_increase(self.magnitude(), other.magnitude());
            }
            if other.magnitude() < self.magnitude() {
                lemma_units_strictly_increase(other.magnitude(), self.magnitude());
            }
        }
        if self.is_nan() || other.is_nan() {
            false
        } else if self.bits < SIGN_BIT {
            other.bits >= SIGN_BIT || self.bits >= other.bits
        } else if other.bits < SIGN_BIT {
            self.bits == SIGN_BIT && other.bits == 0
        } else {
            self.bits <= other.bits
        }
    }

    /// Whether this pattern does not come after `other` in the total order.
    pub fn precedes(self, other: Binary64) -> (r: bool)
        ensures
            r == (self.rank() <= other.rank()),
    {
        if self.bits < SIGN_BIT {
            other.bits < SIGN_BIT && self.bits <= other.bits
        } else {
            other.bits < SIGN_BIT || self.bits >= other.bits
        }
    }
}

/// Two to the power of `exponent`.
fn power_of_two(exponent: u64) -> (r: u64)
    requires
        exponent < 64,
    ensures
        r == pow2(exponent as nat),
{
    let mut r: u64 = 1;
    let mut i: u64 = 0;
    proof {
        lemma2_to64();
    }
    while i < exponent
        invariant
            i <= exponent < 64,
            r == pow2(i as nat),
        decreases exponent - i,
    {
        proof {
            lemma_pow2_adds(1, i as nat);
            lemma2_to64();
            lemma2_to64_rest();
            if i + 1 < 63 {
                lemma_pow2_strictly_increases((i + 1) as nat, 63);
            }
        }
        r = r * 2;
        i = i + 1;
    }
    r
}

impl Binary64 {
    /// The nearest whole number, halves away from zero, brought into the range of `u64`.
    pub fn to_nearest(self) -> (r: u64)
        ensures
            r == self.nearest(),
    {
        proof {
            lemma_units_of_zero(self.magnitude());
        }
        if !self.is_positive() {
            return 0;
        }
        let exponent: u64 = self.bits / LEADING_ONE;
        let significand: u64 = self.bits % LEADING_ONE + LEADING_ONE;
        if exponent <= 1021 {
            proof {
                lemma_small_rounds_to_zero(self.bits as int);
            }
            0
        } else if exponent <= 1074 {
            let shift: u64 = 1075 - exponent;
            proof {
                lemma2_to64();
                lemma2_to64_rest();
                if shift < 53 {
                    lemma_pow2_strictly_increases(shift as nat, 53);
                }
                if shift > 1 {
                    lemma_pow2_strictly_increases((shift - 1) as nat, shift as nat);
                }
                lemma_pow2_pos(shift as nat);
                lemma_rounds_within(significand as int, exponent as nat);
            }
            (significand + power_of_two(shift - 1)) / power_of_two(shift)
        } else if exponent <= 1086 {
            let shift: u64 = exponent - 1075;
            proof {
                lemma2_to64();
                if shift < 11 {
                    lemma_pow2_strictly_increases(shift as nat, 11);
                }
                let p = pow2(shift as nat) as int;
                assert(significand * p <= 0x1f_ffff_ffff_ffff * 2048) by (nonlinear_arith)
                    requires
                        0 <= significand <= 0x1f_ffff_ffff_ffff,
                        0 <= p <= 2048,
                ;
                lemma_rounds_whole(significand as int, exponent as nat);
            }
            significand * power_of_two(shift)
        } else {
            proof {
                lemma_large_is_out_of_range(significand as int, exponent as nat);
            }
            u64::MAX
        }
    }
}

/// What is below one half rounds to zero.
proof fn lemma_small_rounds_to_zero(magnitude: int)
    requires
        0 <= magnitude,
        magnitude / LEADING_ONE as int <= 1021,
    ensures
        (units(magnitude) + pow2(1073)) / one() == 0,
{
    let half = 1022 * LEADING_ONE as int;
    lemma_units_strictly_increase(magnitude, half);
    lemma_units_of_zero(magnitude);
    lemma2_to64();
    lemma2_to64_rest();
    lemma_pow2_adds(52, 1021);
    lemma_pow2_adds(1, 1073);
    assert(half / LEADING_ONE as int == 1022 && half % LEADING_ONE as int == 0);
    assert(units(half) == pow2(1073));
    let x = units(magnitude) + pow2(1073);
    assert(x / one() == 0) by (nonlinear_arith)
        requires
            0 <= x < one(),
    ;
}

/// Rounding a number between one half and two to the power of 52 drops the lowest bits of its
/// significand.
proof fn lemma_rounds_within(significand: int, exponent: nat)
    requires
        0 <= significand,
        1022 <= exponent <= 1074,
    ensures
        (significand * pow2((exponent - 1) as nat) + pow2(1073)) / one() == (significand + pow2(
            (1074 - exponent) as nat,
        )) / pow2((1075 - exponent) as nat) as int,
{
    let unit = pow2((exponent - 1) as nat) as int;
    let half = pow2((1074 - exponent) as nat) as int;
    let step = pow2((1075 - exponent) as nat) as int;
    lemma_pow2_adds((exponent - 1) as nat, (1074 - exponent) as nat);
    lemma_pow2_adds((exponent - 1) as nat, (1075 - exponent) as nat);
    lemma_pow2_pos((exponent - 1) as nat);
    lemma_pow2_pos((1075 - exponent) as nat);
    assert(significand * unit + unit * half == unit * (significand + half)) by (nonlinear_arith);
    vstd::arithmetic::div_mod::lemma_div_multiples_vanish_quotient(unit, significand + half, step);
}

/// From two to the power of 52 on, a number is whole and rounds to itself.
proof fn lemma_rounds_whole(significand: int, exponent: nat)
    requires
        0 <= significand,
        1075 <= exponent,
    ensures
        (significand * pow2((exponent - 1) as nat) + pow2(1073)) / one() == significand * pow2(
            (exponent - 1075) as nat,
        ),
{
    let p = pow2((exponent - 1075) as nat) as int;
    lemma_pow2_adds((exponent - 1075) as nat, 1074);
    lemma_pow2_adds(1, 1073);
    lemma2_to64();
    lemma_pow2_pos(1073);
    let whole = significand * p;
    let half = pow2(1073) as int;
    assert(significand * (p * one()) == whole * one()) by (nonlinear_arith)
        requires
            whole == significand * p,
    ;
    vstd::arithmetic::div_mod::lemma_fundamental_div_mod_converse(
        whole * one() + half,
        one(),
        whole,
        half,
    );
}

/// From two to the power of 64 on, a number does not fit.
proof fn lemma_large_is_out_of_range(significand: int, exponent: nat)
    requires
        LEADING_ONE <= significand,
        1087 <= exponent,
    ensures
        (significand * pow2((exponent - 1) as nat) + pow2(1073)) / one() > u64::MAX,
{
    lemma_rounds_whole(significand, exponent);
    lemma2_to64();
    if exponent > 1087 {
        lemma_pow2_strictly_increases(12, (exponent - 1075) as nat);
    }
    let p = pow2((exponent - 1075) as nat) as int;
    assert(significand * p >= 0x0010_0000_0000_0000 * 4096) by (nonlinear_arith)
        requires
            significand >= 0x0010_0000_0000_0000,
            p >= 4096,
    ;
}

/// The total order of IEEE 754 as a relation.
pub open spec fn in_order() -> spec_fn(Binary64, Binary64) -> bool {
    |a: Binary64, b: Binary64| a.rank() <= b.rank()
}

/// The numbers of `s` in ascending total order.
pub open spec fn sorted(s: Seq<Binary64>) -> Seq<Binary64> {
    s.sort_by(in_order())
}

/// The total order is one: no two patterns share a place.
pub proof fn lemma_in_order_is_total()
    ensures
        total_ordering(in_order()),
{
    assert forall|a: Binary64, b: Binary64| #[trigger]
        in_order()(a, b) && #[trigger] in_order()(b, a) implies a == b by {
        assert(a.rank() == b.rank());
        assert(a.bits == b.bits);
    }
}

/// Sorting keeps the numbers and puts them in order; nothing else does both.
pub proof fn lemma_sorted(s: Seq<Binary64>, t: Seq<Binary64>)
    ensures
        sorted(s).to_multiset() == s.to_multiset(),
        sorted(s).len() == s.len(),
        sorted_by(sorted(s), in_order()),
        t.to_multiset() == s.to_multiset() && sorted_by(t, in_order()) ==> t == sorted(s),
{
    broadcast use group_to_multiset_ensures;

    lemma_in_order_is_total();
    s.lemma_sort_by_ensures(in_order());
    assert(sorted(s).to_multiset().len() == s.to_multiset().len());
    if t.to_multiset() == s.to_multiset() && sorted_by(t, in_order()) {
        lemma_sorted_unique(t, sorted(s), in_order());
    }
}

/// Puts the numbers in ascending total order.
pub fn sort(numbers: Vec<Binary64>) -> (r: Vec<Binary64>)
    ensures
        r@ == sorted(numbers@),
        r@.to_multiset() == numbers@.to_multiset(),
        sorted_by(r@, in_order()),
{
    let mut r: Vec<Binary64> = Vec::new();
    let mut i: usize = 0;
    proof {
        assert(r@ =~= numbers@.take(0));
    }
    while i < numbers.len()
        invariant
            i <= numbers.len(),
            r.len() == i,
            r@.to_multiset() == numbers@.take(i as int).to_multiset(),
            sorted_by(r@, in_order()),
        decreases numbers.len() - i,
    {
        let ghost before = r@;
        let x = numbers[i];
        let mut at: usize = r.len();
        while at > 0 && !r[at - 1].precedes(x)
            invariant
                at <= r.len(),
                r@ == before,
                forall|k: int| at <= k < r.len() ==> x.rank() < #[trigger] r@[k].rank(),
            decreases at,
        {
            at = at - 1;
        }
        r.insert(at, x);
        proof {
            broadcast use group_to_multiset_ensures;

            assert(numbers@.take(i + 1) =~= numbers@.take(i as int).push(x));
            assert(at > 0 ==> before[at - 1].rank() <= x.rank());
            assert forall|a: int, b: int| 0 <= a < b < r@.len() implies #[trigger] in_order()(
                r@[a],
                r@[b],
            ) by {
                let old_a = if a < at { a } else { a - 1 };
                let old_b = if b < at { b } else { b - 1 };
                if a != at && b != at {
                    assert(in_order()(before[old_a], before[old_b]));
                } else if b == at && a + 1 < at {
                    assert(in_order()(before[a], before[at - 1]));
                }
            }
        }
        i = i + 1;
    }
    proof {
        assert(numbers@.take(i as int) =~= numbers@);
        lemma_sorted(numbers@, r@);
    }
    r
}

/// What the patterns stand for, by their bits: the sign is the highest one; the largest magnitude
/// of a number is that of the infinities; both zeros are zero, and whatever else is a number is on
/// the side of zero that its sign tells.
pub proof fn lemma_patterns(a: Binary64)
    ensures
        a.nan() <==> 0x7ff0_0000_0000_0000 < a.bits < 0x8000_0000_0000_0000 || a.bits
            > 0xfff0_0000_0000_0000,
        a.value() == 0 <==> a.bits == 0 || a.bits == 0x8000_0000_0000_0000,
        a.value() > 0 <==> 0 < a.bits < 0x8000_0000_0000_0000,
        a.value() < 0 <==> a.bits > 0x8000_0000_0000_0000,
        !a.nan() && a.value() > 0 <==> 0 < a.bits <= 0x7ff0_0000_0000_0000,
{
    lemma_units_of_zero(a.magnitude());
}

/// The total order by bits: the patterns without a sign follow those with one, they ascend with
/// their bits, and those with a sign descend.
pub proof fn lemma_rank_by_bits(a: Binary64, b: Binary64)
    ensures
        a.bits < 0x8000_0000_0000_0000 && b.bits < 0x8000_0000_0000_0000 ==> (a.rank() <= b.rank()
            <==> a.bits <= b.bits),
        a.bits >= 0x8000_0000_0000_0000 && b.bits >= 0x8000_0000_0000_0000 ==> (a.rank()
            <= b.rank() <==> a.bits >= b.bits),
        a.bits >= 0x8000_0000_0000_0000 && b.bits < 0x8000_0000_0000_0000 ==> a.rank() < b.rank(),
        a.rank() == b.rank() <==> a == b,
{
}

/// Numbers lie as close as their exponent tells: the lowest patterns are a unit apart, and with
/// each further exponent the distance doubles. Together with zero this gives the worth of every
/// pattern.
pub proof fn lemma_units_step(magnitude: int)
    requires
        0 <= magnitude,
    ensures
        units(0) == 0,
        magnitude < 0x0020_0000_0000_0000 ==> units(magnitude + 1) == units(magnitude) + 1,
        magnitude >= 0x0010_0000_0000_0000 ==> units(magnitude + 0x0010_0000_0000_0000) == 2
            * units(magnitude),
{
    let h = LEADING_ONE as int;
    let e = magnitude / h;
    lemma2_to64();
    assert(units(0) == 0);
    if magnitude < 2 * h {
        let next = magnitude + 1;
        if e == 1 {
            assert(pow2(0) == 1);
            assert((magnitude % h + h) * 1 == magnitude);
        }
        if next / h == 1 {
            assert(pow2(0) == 1);
            assert((next % h + h) * 1 == next);
        } else if next / h == 2 {
            assert(next == 2 * h);
            assert(next % h == 0);
            assert(pow2(1) == 2);
            assert((next % h + h) * 2 == next);
        }
    }
    if magnitude >= h {
        assert((magnitude + h) / h == e + 1);
        assert((magnitude + h) % h == magnitude % h);
        lemma_pow2_adds(1, (e - 1) as nat);
        let p = pow2((e - 1) as nat) as int;
        let q = pow2(e as nat) as int;
        let s = magnitude % h + h;
        assert(s * q == 2 * (s * p)) by (nonlinear_arith)
            requires
                q == 2 * p,
        ;
    }
}

/// What a number is rounded to is the whole number next to it, the upper one where it lies in the
/// middle; what is not above zero gives zero, and what is too large the largest there is.
pub proof fn lemma_nearest(a: Binary64)
    ensures
        a.nan() || a.value() <= 0 ==> a.nearest() == 0,
        0 <= a.nearest() <= 0xffff_ffff_ffff_ffff,
        !a.nan() && a.value() > 0 ==> 2 * a.nearest() * pow2(1074) <= 2 * a.value() + pow2(1074),
        !a.nan() && a.value() > 0 && a.nearest() < 0xffff_ffff_ffff_ffff ==> 2 * a.value() < 2
            * a.nearest() * pow2(1074) + pow2(1074),
{
    if !a.nan() && a.value() > 0 {
        let v = a.value();
        let unit = pow2(1074) as int;
        let half = pow2(1073) as int;
        lemma_pow2_adds(1, 1073);
        lemma2_to64();
        lemma_pow2_pos(1073);
        let whole = (v + half) / unit;
        assert(whole * unit <= v + half < whole * unit + unit && whole >= 0) by (nonlinear_arith)
            requires
                unit > 0,
                v + half >= 0,
                whole == (v + half) / unit,
        ;
        let n = a.nearest();
        assert(n <= whole);
        assert(n * unit <= whole * unit) by (nonlinear_arith)
            requires
                n <= whole,
                unit > 0,
        ;
        assert(2 * n * unit == 2 * (n * unit)) by (nonlinear_arith);
    }
}

} // verus!
