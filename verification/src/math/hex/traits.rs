use vstd::prelude::*;

verus! {

/// Rust's truncating integer division, stated over mathematical integers
/// (the quotient is rounded towards zero).
pub open spec fn trunc_div(a: int, b: int) -> int {
    if a >= 0 {
        if b > 0 { a / b } else { -(a / (-b)) }
    } else {
        if b > 0 { -((-a) / b) } else { (-a) / (-b) }
    }
}

/// Euclidean division by a negative divisor is the negated division by its
/// absolute value.
pub proof fn lemma_div_negative_divisor(a: int, b: int)
    requires
        b < 0,
    ensures
        a / b == -(a / (-b)),
{
    let q = a / (-b);
    let r = a % (-b);
    vstd::arithmetic::div_mod::lemma_fundamental_div_mod(a, -b);
    assert(a == (-q) * b + r) by (nonlinear_arith)
        requires
            a == (-b) * q + r,
    ;
    assert(a / b == -q) by (nonlinear_arith)
        requires
            b < 0,
            0 <= r < -b,
            a == (-q) * b + r,
    ;
}

/// The absolute value of a mathematical integer.
pub open spec fn abs_int(a: int) -> int {
    if a < 0 { -a } else { a }
}

/// Whether `v` can be held by the unit type `T`.
pub open spec fn fits<T: Unit>(v: int) -> bool {
    T::min_int() <= v <= T::max_int()
}

/// A signed integer that a coordinate can be made of.
pub trait Unit: Copy + Sized {
    /// The mathematical value of this number.
    spec fn value(self) -> int;

    /// The smallest value the type can hold.
    spec fn min_int() -> int;

    /// The largest value the type can hold.
    spec fn max_int() -> int;

    /// Every value lies within the type's range, and the range covers -2..=2.
    proof fn lemma_range(x: Self)
        ensures
            Self::min_int() <= x.value() <= Self::max_int(),
            Self::min_int() <= -128,
            127 <= Self::max_int(),
            Self::min_int() == -Self::max_int() - 1,
    ;

    fn zero() -> (r: Self)
        ensures
            r.value() == 0,
    ;

    fn one() -> (r: Self)
        ensures
            r.value() == 1,
    ;

    fn neg_one() -> (r: Self)
        ensures
            r.value() == -1,
    {
        let one = Self::one();
        proof {
            Self::lemma_range(one);
        }
        one.neg()
    }

    fn two() -> (r: Self)
        ensures
            r.value() == 2,
    {
        let one = Self::one();
        proof {
            Self::lemma_range(one);
        }
        one.add(one)
    }

    fn add(self, rhs: Self) -> (r: Self)
        requires
            Self::min_int() <= self.value() + rhs.value() <= Self::max_int(),
        ensures
            r.value() == self.value() + rhs.value(),
    ;

    fn sub(self, rhs: Self) -> (r: Self)
        requires
            Self::min_int() <= self.value() - rhs.value() <= Self::max_int(),
        ensures
            r.value() == self.value() - rhs.value(),
    ;

    fn mul(self, rhs: Self) -> (r: Self)
        requires
            Self::min_int() <= self.value() * rhs.value() <= Self::max_int(),
        ensures
            r.value() == self.value() * rhs.value(),
    ;

    /// Division rounding towards zero.
    fn div(self, rhs: Self) -> (r: Self)
        requires
            rhs.value() != 0,
            Self::min_int() <= trunc_div(self.value(), rhs.value()) <= Self::max_int(),
        ensures
            r.value() == trunc_div(self.value(), rhs.value()),
    ;

    fn neg(self) -> (r: Self)
        requires
            Self::min_int() <= -self.value() <= Self::max_int(),
        ensures
            r.value() == -self.value(),
    ;

    fn abs(self) -> (r: Self)
        requires
            Self::min_int() <= -self.value() <= Self::max_int(),
        ensures
            r.value() == abs_int(self.value()),
    ;

    fn is_negative(self) -> (r: bool)
        ensures
            r == (self.value() < 0),
    ;
}

impl Unit for i32 {
    open spec fn value(self) -> int {
        self as int
    }

    open spec fn min_int() -> int {
        i32::MIN as int
    }

    open spec fn max_int() -> int {
        i32::MAX as int
    }

    proof fn lemma_range(x: Self) {
        assert(Self::min_int() <= x.value() <= Self::max_int());
        assert(Self::min_int() <= -128);
        assert(127 <= Self::max_int());
        assert(Self::min_int() == -Self::max_int() - 1);
    }

    fn zero() -> (r: Self) {
        0
    }

    fn one() -> (r: Self) {
        1
    }

    fn add(self, rhs: Self) -> (r: Self) {
        assert(Self::min_int() <= self.value() + rhs.value() <= Self::max_int());
        self + rhs
    }

    fn sub(self, rhs: Self) -> (r: Self) {
        assert(Self::min_int() <= self.value() - rhs.value() <= Self::max_int());
        self - rhs
    }

    fn mul(self, rhs: Self) -> (r: Self) {
        assert(Self::min_int() <= self.value() * rhs.value() <= Self::max_int());
        self * rhs
    }

    fn div(self, rhs: Self) -> (r: Self) {
        assert(Self::min_int() <= trunc_div(self.value(), rhs.value()) <= Self::max_int());
        assert(trunc_div(self as int, -1) == -(self as int));
        proof {
            if rhs < 0 {
                lemma_div_negative_divisor(self as int, rhs as int);
                lemma_div_negative_divisor(-(self as int), rhs as int);
            }
        }
        self / rhs
    }

    fn neg(self) -> (r: Self) {
        assert(Self::min_int() <= -self.value() <= Self::max_int());
        -self
    }

    fn abs(self) -> (r: Self) {
        assert(Self::min_int() <= -self.value() <= Self::max_int());
        if self < 0 { -self } else { self }
    }

    fn is_negative(self) -> (r: bool) {
        self < 0
    }
}

impl Unit for i8 {
    open spec fn value(self) -> int {
        self as int
    }

    open spec fn min_int() -> int {
        i8::MIN as int
    }

    open spec fn max_int() -> int {
        i8::MAX as int
    }

    proof fn lemma_range(x: Self) {
        assert(Self::min_int() <= x.value() <= Self::max_int());
        assert(Self::min_int() <= -128);
        assert(127 <= Self::max_int());
        assert(Self::min_int() == -Self::max_int() - 1);
    }

    fn zero() -> (r: Self) {
        0
    }

    fn one() -> (r: Self) {
        1
    }

    fn add(self, rhs: Self) -> (r: Self) {
        assert(Self::min_int() <= self.value() + rhs.value() <= Self::max_int());
        self + rhs
    }

    fn sub(self, rhs: Self) -> (r: Self) {
        assert(Self::min_int() <= self.value() - rhs.value() <= Self::max_int());
        self - rhs
    }

    fn mul(self, rhs: Self) -> (r: Self) {
        assert(Self::min_int() <= self.value() * rhs.value() <= Self::max_int());
        self * rhs
    }

    fn div(self, rhs: Self) -> (r: Self) {
        assert(Self::min_int() <= trunc_div(self.value(), rhs.value()) <= Self::max_int());
        assert(trunc_div(self as int, -1) == -(self as int));
        proof {
            if rhs < 0 {
                lemma_div_negative_divisor(self as int, rhs as int);
                lemma_div_negative_divisor(-(self as int), rhs as int);
            }
        }
        self / rhs
    }

    fn neg(self) -> (r: Self) {
        assert(Self::min_int() <= -self.value() <= Self::max_int());
        -self
    }

    fn abs(self) -> (r: Self) {
        assert(Self::min_int() <= -self.value() <= Self::max_int());
        if self < 0 { -self } else { self }
    }

    fn is_negative(self) -> (r: bool) {
        self < 0
    }
}

impl Unit for i16 {
    open spec fn value(self) -> int {
        self as int
    }

    open spec fn min_int() -> int {
        i16::MIN as int
    }

    open spec fn max_int() -> int {
        i16::MAX as int
    }

    proof fn lemma_range(x: Self) {
        assert(Self::min_int() <= x.value() <= Self::max_int());
        assert(Self::min_int() <= -128);
        assert(127 <= Self::max_int());
        assert(Self::min_int() == -Self::max_int() - 1);
    }

    fn zero() -> (r: Self) {
        0
    }

    fn one() -> (r: Self) {
        1
    }

    fn add(self, rhs: Self) -> (r: Self) {
        assert(Self::min_int() <= self.value() + rhs.value() <= Self::max_int());
        self + rhs
    }

    fn sub(self, rhs: Self) -> (r: Self) {
        assert(Self::min_int() <= self.value() - rhs.value() <= Self::max_int());
        self - rhs
    }

    fn mul(self, rhs: Self) -> (r: Self) {
        assert(Self::min_int() <= self.value() * rhs.value() <= Self::max_int());
        self * rhs
    }

    fn div(self, rhs: Self) -> (r: Self) {
        assert(Self::min_int() <= trunc_div(self.value(), rhs.value()) <= Self::max_int());
        assert(trunc_div(self as int, -1) == -(self as int));
        proof {
            if rhs < 0 {
                lemma_div_negative_divisor(self as int, rhs as int);
                lemma_div_negative_divisor(-(self as int), rhs as int);
            }
        }
        self / rhs
    }

    fn neg(self) -> (r: Self) {
        assert(Self::min_int() <= -self.value() <= Self::max_int());
        -self
    }

    fn abs(self) -> (r: Self) {
        assert(Self::min_int() <= -self.value() <= Self::max_int());
        if self < 0 { -self } else { self }
    }

    fn is_negative(self) -> (r: bool) {
        self < 0
    }
}

impl Unit for i64 {
    open spec fn value(self) -> int {
        self as int
    }

    open spec fn min_int() -> int {
        i64::MIN as int
    }

    open spec fn max_int() -> int {
        i64::MAX as int
    }

    proof fn lemma_range(x: Self) {
        assert(Self::min_int() <= x.value() <= Self::max_int());
        assert(Self::min_int() <= -128);
        assert(127 <= Self::max_int());
        assert(Self::min_int() == -Self::max_int() - 1);
    }

    fn zero() -> (r: Self) {
        0
    }

    fn one() -> (r: Self) {
        1
    }

    fn add(self, rhs: Self) -> (r: Self) {
        assert(Self::min_int() <= self.value() + rhs.value() <= Self::max_int());
        self + rhs
    }

    fn sub(self, rhs: Self) -> (r: Self) {
        assert(Self::min_int() <= self.value() - rhs.value() <= Self::max_int());
        self - rhs
    }

    fn mul(self, rhs: Self) -> (r: Self) {
        assert(Self::min_int() <= self.value() * rhs.value() <= Self::max_int());
        self * rhs
    }

    fn div(self, rhs: Self) -> (r: Self) {
        assert(Self::min_int() <= trunc_div(self.value(), rhs.value()) <= Self::max_int());
        assert(trunc_div(self as int, -1) == -(self as int));
        proof {
            if rhs < 0 {
                lemma_div_negative_divisor(self as int, rhs as int);
                lemma_div_negative_divisor(-(self as int), rhs as int);
            }
        }
        self / rhs
    }

    fn neg(self) -> (r: Self) {
        assert(Self::min_int() <= -self.value() <= Self::max_int());
        -self
    }

    fn abs(self) -> (r: Self) {
        assert(Self::min_int() <= -self.value() <= Self::max_int());
        if self < 0 { -self } else { self }
    }

    fn is_negative(self) -> (r: bool) {
        self < 0
    }
}

impl Unit for isize {
    open spec fn value(self) -> int {
        self as int
    }

    open spec fn min_int() -> int {
        isize::MIN as int
    }

    open spec fn max_int() -> int {
        isize::MAX as int
    }

    proof fn lemma_range(x: Self) {
        assert(Self::min_int() <= x.value() <= Self::max_int());
        assert(Self::min_int() <= -128);
        assert(127 <= Self::max_int());
        assert(Self::min_int() == -Self::max_int() - 1);
    }

    fn zero() -> (r: Self) {
        0
    }

    fn one() -> (r: Self) {
        1
    }

    fn add(self, rhs: Self) -> (r: Self) {
        assert(Self::min_int() <= self.value() + rhs.value() <= Self::max_int());
        self + rhs
    }

    fn sub(self, rhs: Self) -> (r: Self) {
        assert(Self::min_int() <= self.value() - rhs.value() <= Self::max_int());
        self - rhs
    }

    fn mul(self, rhs: Self) -> (r: Self) {
        assert(Self::min_int() <= self.value() * rhs.value() <= Self::max_int());
        self * rhs
    }

    fn div(self, rhs: Self) -> (r: Self) {
        assert(Self::min_int() <= trunc_div(self.value(), rhs.value()) <= Self::max_int());
        assert(trunc_div(self as int, -1) == -(self as int));
        proof {
            if rhs < 0 {
                lemma_div_negative_divisor(self as int, rhs as int);
                lemma_div_negative_divisor(-(self as int), rhs as int);
            }
        }
        self / rhs
    }

    fn neg(self) -> (r: Self) {
        assert(Self::min_int() <= -self.value() <= Self::max_int());
        -self
    }

    fn abs(self) -> (r: Self) {
        assert(Self::min_int() <= -self.value() <= Self::max_int());
        if self < 0 { -self } else { self }
    }

    fn is_negative(self) -> (r: bool) {
        self < 0
    }
}

/// A coordinate on a hexagonal grid whose length can be measured.
pub trait Coord<T: Unit>: Sized {
    /// The mathematical length of the coordinate, its distance from the origin.
    spec fn spec_length(&self) -> int;

    /// Whether computing the length stays within the range of `T`.
    spec fn length_fits(&self) -> bool;

    /// The mathematical distance between two coordinates.
    spec fn spec_distance(&self, other: &Self) -> int;

    /// Whether computing the distance stays within the range of `T`.
    spec fn distance_fits(&self, other: &Self) -> bool;

    fn length(&self) -> (r: T)
        requires
            self.length_fits(),
        ensures
            r.value() == self.spec_length(),
    ;

    /// The length of the difference between `other` and `self`.
    fn distance(&self, other: &Self) -> (r: T)
        requires
            self.distance_fits(other),
        ensures
            r.value() == self.spec_distance(other),
    ;
}

/// The index `dir` reduced into `0..len`, rounding towards negative infinity.
pub open spec fn wrap_index(dir: int, len: int) -> int {
    dir % len
}

/// One of a fixed, finite list of directions on a grid.
pub trait Direction<T: Unit, U: Coord<T>, const LEN: usize>: Sized + Copy {
    /// The direction at position `i` of the list.
    spec fn spec_direction_at(i: int) -> Self;

    /// Whether `coord` is the unit coordinate pointing in this direction.
    spec fn is_unit_coord(self, coord: U) -> bool;

    /// The direction at position `i` of the list.
    fn direction_at(i: usize) -> (d: Self)
        requires
            i < LEN,
        ensures
            d == Self::spec_direction_at(i as int),
    ;

    /// The direction at position `dir`, wrapping around the list.
    fn direction(dir: usize) -> (d: Self)
        requires
            LEN > 0,
        ensures
            d == Self::spec_direction_at(wrap_index(dir as int, LEN as int)),
    {
        Self::direction_at(dir % LEN)
    }

    /// The direction at position `dir`, where a negative position counts
    /// backwards from the end of the list.
    fn signed_direction(dir: isize) -> (d: Self)
        requires
            LEN > 0,
        ensures
            d == Self::spec_direction_at(wrap_index(dir as int, LEN as int)),
    {
        let abs: usize = if dir < 0 {
            ((-(dir + 1)) as usize) + 1
        } else {
            dir as usize
        };
        let index: usize = if dir >= 0 {
            abs
        } else {
            LEN - (abs % LEN)
        };
        proof {
            let n = LEN as int;
            if dir < 0 {
                assert(abs as int == -(dir as int));
                vstd::arithmetic::div_mod::lemma_fundamental_div_mod(abs as int, n);
                vstd::arithmetic::div_mod::lemma_fundamental_div_mod(dir as int, n);
                let qa = (abs as int) / n;
                let ra = (abs as int) % n;
                assert((n - ra) % n == (dir as int) % n) by {
                    vstd::arithmetic::div_mod::lemma_mod_add_multiples_vanish(dir as int, n);
                    assert(n - ra == (dir as int) + n * (qa + 1)) by (nonlinear_arith)
                        requires
                            abs as int == qa * n + ra,
                            dir as int == -(abs as int),
                    ;
                    vstd::arithmetic::div_mod::lemma_mod_multiples_vanish(qa + 1, dir as int, n);
                }
            }
        }
        Self::direction(index)
    }

    /// The unit coordinate that points in this direction.
    fn to_unit_coord(self) -> (c: U)
        ensures
            self.is_unit_coord(c),
    ;
}

/// Picking a direction by position is periodic: shifting the position by
/// the number of directions picks the same direction.
pub proof fn law_direction_periodic(dir: int, len: int)
    requires
        len > 0,
    ensures
        wrap_index(dir + len, len) == wrap_index(dir, len),
        wrap_index(dir - len, len) == wrap_index(dir, len),
        0 <= wrap_index(dir, len) < len,
{
    vstd::arithmetic::div_mod::lemma_mod_add_multiples_vanish(dir, len);
    vstd::arithmetic::div_mod::lemma_mod_sub_multiples_vanish(dir, len);
    vstd::arithmetic::div_mod::lemma_mod_bound(dir, len);
}

} // verus!
