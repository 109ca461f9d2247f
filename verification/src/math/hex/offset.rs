use vstd::prelude::*;

use super::cube::{cube, cube_fits, cube_of, in_unit, CubeCoord};
use super::traits::{trunc_div, Unit};

verus! {

/// A position on a hexagonal grid in offset coordinates `(x, y)`.
#[derive(Debug, Clone, Copy, PartialEq, Eq, PartialOrd, Ord, Hash)]
pub struct OffsetCoord<T: Unit> {
    data: [T; 2],
}

impl<T: Unit> View for OffsetCoord<T> {
    type V = (int, int);

    closed spec fn view(&self) -> (int, int) {
        (self.data[0].value(), self.data[1].value())
    }
}

/// The shift that the offset layout applies to one axis, given the other:
/// half of it, rounded towards zero.
pub open spec fn shift(v: int) -> int {
    trunc_div(v, 2)
}

/// The shift that the offset layout applies to one axis, given the other.
fn o<T: Unit>(v: T) -> (r: T)
    ensures
        r.value() == shift(v.value()),
{
    let two = T::two();
    proof {
        lemma_half_fits::<T>(v);
    }
    v.div(two)
}

/// The offset coordinate `(x, y)`.
pub fn offset<T: Unit>(x: T, y: T) -> (c: OffsetCoord<T>)
    ensures
        c@ == (x.value(), y.value()),
{
    OffsetCoord::<T>::new(x, y)
}

impl<T: Unit> OffsetCoord<T> {
    /// The offset coordinate `(x, y)`.
    pub fn new(x: T, y: T) -> (c: Self)
        ensures
            c@ == (x.value(), y.value()),
    {
        Self::new_array([x, y])
    }

    /// The offset coordinate `(data[0], data[1])`.
    pub fn new_array(data: [T; 2]) -> (c: Self)
        ensures
            c@ == (data[0].value(), data[1].value()),
    {
        Self { data }
    }

    pub fn x(&self) -> (v: T)
        ensures
            v.value() == self@.0,
    {
        self.data[0]
    }

    pub fn y(&self) -> (v: T)
        ensures
            v.value() == self@.1,
    {
        self.data[1]
    }

    /// The flat-topped offset position of `cube`: `(q, r + shift(q))`.
    pub fn from_cube_as_flat_top(cube: &CubeCoord<T>) -> (c: Self)
        requires
            in_unit::<T>(cube@.1 + shift(cube@.0)),
        ensures
            c@ == (cube@.0, cube@.1 + shift(cube@.0)),
    {
        let x = cube.q();
        let y = cube.r().add(o(x));
        offset(x, y)
    }

    /// The cube position `(x, (y - x) / 2)` of a flat-topped offset coordinate.
    pub fn to_cube_as_flat_top(&self) -> (c: CubeCoord<T>)
        requires
            in_unit::<T>(self@.1 - self@.0),
            cube_fits::<T>(self@.0, trunc_div(self@.1 - self@.0, 2)),
        ensures
            c@ == cube_of(self@.0, trunc_div(self@.1 - self@.0, 2)),
    {
        let q = self.x();
        let two = T::two();
        let d = self.y().sub(q);
        proof {
            lemma_half_fits::<T>(d);
        }
        let r = d.div(two);
        cube(q, r)
    }

    /// The pointy-topped offset position of `cube`: `(q + shift(r), r)`.
    pub fn from_cube_as_pointy_top(cube: &CubeCoord<T>) -> (c: Self)
        requires
            in_unit::<T>(cube@.0 + shift(cube@.1)),
        ensures
            c@ == (cube@.0 + shift(cube@.1), cube@.1),
    {
        let y = cube.r();
        let x = cube.q().add(o(y));
        offset(x, y)
    }

    /// The cube position `((y - x) / 2, x)` of a pointy-topped offset coordinate.
    pub fn to_cube_as_pointy_top(&self) -> (c: CubeCoord<T>)
        requires
            in_unit::<T>(self@.1 - self@.0),
            cube_fits::<T>(trunc_div(self@.1 - self@.0, 2), self@.0),
        ensures
            c@ == cube_of(trunc_div(self@.1 - self@.0, 2), self@.0),
    {
        let r = self.x();
        let two = T::two();
        let d = self.y().sub(r);
        proof {
            lemma_half_fits::<T>(d);
        }
        let q = d.div(two);
        cube(q, r)
    }
}

/// Halving a value of `T` gives a value of `T`.
proof fn lemma_half_fits<T: Unit>(x: T)
    ensures
        in_unit::<T>(trunc_div(x.value(), 2)),
{
    T::lemma_range(x);
    let v = x.value();
    if v < 0 {
        assert(-v / 2 <= -v) by (nonlinear_arith)
            requires v < 0;
    } else {
        assert(v / 2 <= v) by (nonlinear_arith)
            requires v >= 0;
    }
}

} // verus!
