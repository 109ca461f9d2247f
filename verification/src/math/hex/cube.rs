use vstd::prelude::*;

use super::traits::{abs_int, trunc_div, Coord, Direction, Unit};

verus! {

/// A position on a hexagonal grid in cube coordinates `(q, r, s)`.
#[derive(Debug, Clone, Copy, PartialEq, Eq, PartialOrd, Ord, Hash)]
pub struct CubeCoord<T: Unit>(pub T, pub T, pub T);

impl<T: Unit> View for CubeCoord<T> {
    type V = (int, int, int);

    open spec fn view(&self) -> (int, int, int) {
        (self.0.value(), self.1.value(), self.2.value())
    }
}

/// Whether `v` can be held by the unit type `T`.
pub open spec fn in_unit<T: Unit>(v: int) -> bool {
    T::min_int() <= v <= T::max_int()
}

/// The cube coordinate `(q, r, -q - r)`: the one whose components sum to zero.
pub open spec fn cube_of(q: int, r: int) -> (int, int, int) {
    (q, r, -q - r)
}

/// Whether the cube coordinate `(q, r, -q - r)` can be computed in `T`.
pub open spec fn cube_fits<T: Unit>(q: int, r: int) -> bool {
    in_unit::<T>(-q) && in_unit::<T>(-q - r)
}

/// The length of a cube coordinate: half the sum of the absolute values of
/// its components (rounded down).
pub open spec fn cube_length(c: (int, int, int)) -> int {
    (abs_int(c.0) + abs_int(c.1) + abs_int(c.2)) / 2
}

/// Whether the length of `c` can be computed in `T` without overflow.
pub open spec fn cube_length_fits<T: Unit>(c: (int, int, int)) -> bool {
    &&& in_unit::<T>(-c.0)
    &&& in_unit::<T>(-c.1)
    &&& in_unit::<T>(-c.2)
    &&& in_unit::<T>(abs_int(c.0) + abs_int(c.1))
    &&& in_unit::<T>(abs_int(c.0) + abs_int(c.1) + abs_int(c.2))
}

/// Componentwise difference of two cube coordinates.
pub open spec fn cube_sub(a: (int, int, int), b: (int, int, int)) -> (int, int, int) {
    (a.0 - b.0, a.1 - b.1, a.2 - b.2)
}

/// Whether a componentwise operation stays within the range of `T`.
pub open spec fn triple_fits<T: Unit>(c: (int, int, int)) -> bool {
    in_unit::<T>(c.0) && in_unit::<T>(c.1) && in_unit::<T>(c.2)
}

impl<T: Unit> CubeCoord<T> {
    /// The coordinate `(q, r, -q - r)`.
    pub fn new(q: T, r: T) -> (c: Self)
        requires
            cube_fits::<T>(q.value(), r.value()),
        ensures
            c@ == cube_of(q.value(), r.value()),
    {
        let minus_q = q.neg();
        Self::new_raw(q, r, minus_q.sub(r))
    }

    /// The coordinate with the three given components, as they are.
    pub fn new_raw(q: T, r: T, s: T) -> (c: Self)
        ensures
            c.0 == q,
            c.1 == r,
            c.2 == s,
    {
        CubeCoord(q, r, s)
    }

    pub fn q(&self) -> (v: T)
        ensures
            v == self.0,
    {
        self.0
    }

    pub fn r(&self) -> (v: T)
        ensures
            v == self.1,
    {
        self.1
    }

    pub fn s(&self) -> (v: T)
        ensures
            v == self.2,
    {
        self.2
    }

    /// Componentwise sum.
    pub fn add(self, rhs: Self) -> (c: Self)
        requires
            triple_fits::<T>((self@.0 + rhs@.0, self@.1 + rhs@.1, self@.2 + rhs@.2)),
        ensures
            c@ == (self@.0 + rhs@.0, self@.1 + rhs@.1, self@.2 + rhs@.2),
    {
        let CubeCoord(q1, r1, s1) = self;
        let CubeCoord(q2, r2, s2) = rhs;
        Self::new_raw(q1.add(q2), r1.add(r2), s1.add(s2))
    }

    /// Componentwise difference.
    pub fn sub(self, rhs: Self) -> (c: Self)
        requires
            triple_fits::<T>(cube_sub(self@, rhs@)),
        ensures
            c@ == cube_sub(self@, rhs@),
    {
        let CubeCoord(q1, r1, s1) = self;
        let CubeCoord(q2, r2, s2) = rhs;
        Self::new_raw(q1.sub(q2), r1.sub(r2), s1.sub(s2))
    }

    /// Componentwise product.
    pub fn mul(self, rhs: Self) -> (c: Self)
        requires
            triple_fits::<T>((self@.0 * rhs@.0, self@.1 * rhs@.1, self@.2 * rhs@.2)),
        ensures
            c@ == (self@.0 * rhs@.0, self@.1 * rhs@.1, self@.2 * rhs@.2),
    {
        let CubeCoord(q1, r1, s1) = self;
        let CubeCoord(q2, r2, s2) = rhs;
        Self::new_raw(q1.mul(q2), r1.mul(r2), s1.mul(s2))
    }

    /// Componentwise quotient, each rounded towards zero.
    pub fn div(self, rhs: Self) -> (c: Self)
        requires
            rhs@.0 != 0,
            rhs@.1 != 0,
            rhs@.2 != 0,
            triple_fits::<T>(
                (
                    trunc_div(self@.0, rhs@.0),
                    trunc_div(self@.1, rhs@.1),
                    trunc_div(self@.2, rhs@.2),
                ),
            ),
        ensures
            c@ == (
                trunc_div(self@.0, rhs@.0),
                trunc_div(self@.1, rhs@.1),
                trunc_div(self@.2, rhs@.2),
            ),
    {
        let CubeCoord(q1, r1, s1) = self;
        let CubeCoord(q2, r2, s2) = rhs;
        Self::new_raw(q1.div(q2), r1.div(r2), s1.div(s2))
    }
}

/// The coordinate `(q, r, -q - r)`.
pub fn cube<T: Unit>(q: T, r: T) -> (c: CubeCoord<T>)
    requires
        cube_fits::<T>(q.value(), r.value()),
    ensures
        c@ == cube_of(q.value(), r.value()),
{
    CubeCoord::new(q, r)
}

impl<T: Unit> Coord<T> for CubeCoord<T> {
    open spec fn spec_length(&self) -> int {
        cube_length(self@)
    }

    open spec fn length_fits(&self) -> bool {
        cube_length_fits::<T>(self@)
    }

    open spec fn spec_distance(&self, other: &Self) -> int {
        cube_length(cube_sub(other@, self@))
    }

    open spec fn distance_fits(&self, other: &Self) -> bool {
        triple_fits::<T>(cube_sub(other@, self@)) && cube_length_fits::<T>(cube_sub(other@, self@))
    }

    fn length(&self) -> (r: T) {
        assert(cube_length_fits::<T>(self@));
        let q = self.q().abs();
        let r = self.r().abs();
        let s = self.s().abs();
        let two = T::two();
        proof {
            T::lemma_range(q);
            T::lemma_range(r);
            T::lemma_range(s);
            T::lemma_range(two);
        }
        let sum = q.add(r).add(s);
        assert(trunc_div(sum.value(), 2) == sum.value() / 2);
        assert(trunc_div(sum.value(), 2) <= sum.value()) by (nonlinear_arith)
            requires
                sum.value() >= 0,
                trunc_div(sum.value(), 2) == sum.value() / 2,
        ;
        let res = sum.div(two);
        assert(res.value() == self.spec_length());
        res
    }

    fn distance(&self, other: &Self) -> (r: T) {
        assert(triple_fits::<T>(cube_sub(other@, self@)));
        assert(cube_length_fits::<T>(cube_sub(other@, self@)));
        let d = other.sub(*self);
        let res = d.length();
        assert(res.value() == self.spec_distance(other));
        res
    }
}

/// The six directions of a hexagonal grid.
#[allow(non_camel_case_types)]
#[derive(Debug, Clone, Copy, PartialEq, Eq)]
pub enum CubeDirection {
    R_,
    RU,
    LU,
    L_,
    LD,
    RD,
}

/// The cube coordinate each direction stands for.
pub open spec fn direction_vector(d: CubeDirection) -> (int, int, int) {
    match d {
        CubeDirection::R_ => cube_of(1, 0),
        CubeDirection::RU => cube_of(1, -1),
        CubeDirection::LU => cube_of(0, -1),
        CubeDirection::L_ => cube_of(-1, 0),
        CubeDirection::LD => cube_of(-1, 1),
        CubeDirection::RD => cube_of(0, -1),
    }
}

/// The directions in their listed order.
pub open spec fn direction_list() -> Seq<CubeDirection> {
    seq![
        CubeDirection::R_,
        CubeDirection::RU,
        CubeDirection::LU,
        CubeDirection::L_,
        CubeDirection::LD,
        CubeDirection::RD,
    ]
}

impl CubeDirection {
    /// The number of directions.
    pub const LEN: usize = 6;

    /// Every direction, in order.
    pub const DIRECTIONS: [CubeDirection; 6] = [
        CubeDirection::R_,
        CubeDirection::RU,
        CubeDirection::LU,
        CubeDirection::L_,
        CubeDirection::LD,
        CubeDirection::RD,
    ];

    /// Every direction, in order.
    pub fn get_directions() -> (ds: [CubeDirection; 6])
        ensures
            ds@ == direction_list(),
    {
        let ds = [
            CubeDirection::R_,
            CubeDirection::RU,
            CubeDirection::LU,
            CubeDirection::L_,
            CubeDirection::LD,
            CubeDirection::RD,
        ];
        assert(ds@ =~= direction_list());
        ds
    }

    /// The unit cube coordinate that this direction points to.
    pub fn to_cube<T: Unit>(self) -> (c: CubeCoord<T>)
        ensures
            c@ == direction_vector(self),
    {
        let p1 = T::one();
        let n1 = T::neg_one();
        let z0 = T::zero();
        proof {
            T::lemma_range(p1);
        }
        match self {
            CubeDirection::R_ => cube(p1, z0),
            CubeDirection::RU => cube(p1, n1),
            CubeDirection::LU => cube(z0, n1),
            CubeDirection::L_ => cube(n1, z0),
            CubeDirection::LD => cube(n1, p1),
            CubeDirection::RD => cube(z0, n1),
        }
    }
}

impl<T: Unit> Direction<T, CubeCoord<T>, 6> for CubeDirection {
    open spec fn spec_direction_at(i: int) -> Self {
        direction_list()[i]
    }

    open spec fn is_unit_coord(self, coord: CubeCoord<T>) -> bool {
        coord@ == direction_vector(self)
    }

    fn direction_at(i: usize) -> (d: Self) {
        let ds = Self::get_directions();
        let d = ds[i];
        assert(d == <Self as Direction<T, CubeCoord<T>, 6>>::spec_direction_at(i as int));
        d
    }

    fn to_unit_coord(self) -> (c: CubeCoord<T>) {
        let c = self.to_cube::<T>();
        assert(<Self as Direction<T, CubeCoord<T>, 6>>::is_unit_coord(self, c));
        c
    }
}

/// The largest of three integers.
pub open spec fn max3(a: int, b: int, c: int) -> int {
    if a >= b && a >= c { a } else if b >= c { b } else { c }
}

/// The length of a cube coordinate is the largest absolute value of its
/// components.
pub proof fn law_cube_length_is_max(q: int, r: int)
    ensures
        cube_length(cube_of(q, r)) == max3(abs_int(q), abs_int(r), abs_int(-q - r)),
{
}

/// The distance from `a` to `b` is the distance from `b` to `a`, and it is
/// zero exactly when they are the same coordinate.
pub proof fn law_distance_symmetric(a: (int, int, int), b: (int, int, int))
    requires
        a == cube_of(a.0, a.1),
        b == cube_of(b.0, b.1),
    ensures
        cube_length(cube_sub(a, b)) == cube_length(cube_sub(b, a)),
        cube_length(cube_sub(a, b)) >= 0,
        cube_length(cube_sub(a, b)) == 0 <==> a == b,
{
    law_cube_length_is_max(a.0 - b.0, a.1 - b.1);
    assert(cube_sub(a, b) == cube_of(a.0 - b.0, a.1 - b.1));
}

/// The distance obeys the triangle inequality.
pub proof fn law_distance_triangle(a: (int, int, int), b: (int, int, int), c: (int, int, int))
    requires
        a == cube_of(a.0, a.1),
        b == cube_of(b.0, b.1),
        c == cube_of(c.0, c.1),
    ensures
        cube_length(cube_sub(a, c)) <= cube_length(cube_sub(a, b)) + cube_length(cube_sub(b, c)),
{
    law_cube_length_is_max(a.0 - b.0, a.1 - b.1);
    law_cube_length_is_max(b.0 - c.0, b.1 - c.1);
    law_cube_length_is_max(a.0 - c.0, a.1 - c.1);
    assert(cube_sub(a, b) == cube_of(a.0 - b.0, a.1 - b.1));
    assert(cube_sub(b, c) == cube_of(b.0 - c.0, b.1 - c.1));
    assert(cube_sub(a, c) == cube_of(a.0 - c.0, a.1 - c.1));
}

/// Every direction points to a neighbor: its vector has length one.
pub proof fn law_direction_is_unit(d: CubeDirection)
    ensures
        cube_length(direction_vector(d)) == 1,
{
}

} // verus!
