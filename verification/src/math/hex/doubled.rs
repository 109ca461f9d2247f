use vstd::prelude::*;

use super::cube::{cube, cube_fits, cube_of, in_unit, CubeCoord};
use super::traits::Unit;

verus! {

/// Which axis of a doubled coordinate is stored halved.
#[derive(Debug, Clone, Copy, PartialEq, Eq)]
pub enum DoubleSetting {
    H,
    W,
}

/// The doubling used by every doubled coordinate: doubled width.
pub const DOUBLE_SETTING: DoubleSetting = DoubleSetting::W;

/// A position on a hexagonal grid in doubled coordinates.
#[derive(Debug, Clone, Copy, PartialEq, Eq, PartialOrd, Ord, Hash)]
pub struct DoubledCoord<T: Unit>(T, T);

/// The horizontal position `x()` returns for the stored pair `(a, b)`.
pub open spec fn doubled_x(a: int, b: int) -> int {
    match DOUBLE_SETTING {
        DoubleSetting::W => a * 2,
        DoubleSetting::H => a,
    }
}

/// The vertical position `y()` returns for the stored pair `(a, b)`.
pub open spec fn doubled_y(a: int, b: int) -> int {
    match DOUBLE_SETTING {
        DoubleSetting::W => b,
        DoubleSetting::H => b * 2,
    }
}

impl<T: Unit> View for DoubledCoord<T> {
    type V = (int, int);

    /// The two stored components.
    closed spec fn view(&self) -> (int, int) {
        (self.0.value(), self.1.value())
    }
}

/// The doubled coordinate storing `x` and `y` as they are.
pub fn doubled<T: Unit>(x: T, y: T) -> (d: DoubledCoord<T>)
    ensures
        d@ == (x.value(), y.value()),
{
    DoubledCoord(x, y)
}

impl<T: Unit> DoubledCoord<T> {
    /// The horizontal position.
    pub fn x(&self) -> (v: T)
        requires
            in_unit::<T>(doubled_x(self@.0, self@.1)),
        ensures
            v.value() == doubled_x(self@.0, self@.1),
    {
        match DOUBLE_SETTING {
            DoubleSetting::W => {
                let two = T::two();
                self.0.mul(two)
            },
            DoubleSetting::H => self.0,
        }
    }

    /// The vertical position.
    pub fn y(&self) -> (v: T)
        requires
            in_unit::<T>(doubled_y(self@.0, self@.1)),
        ensures
            v.value() == doubled_y(self@.0, self@.1),
    {
        match DOUBLE_SETTING {
            DoubleSetting::W => self.1,
            DoubleSetting::H => {
                let two = T::two();
                self.1.mul(two)
            },
        }
    }

    /// The doubled coordinate storing the q and r components of `cube`.
    pub fn from_cube(cube: CubeCoord<T>) -> (d: Self)
        ensures
            d@ == (cube@.0, cube@.1),
    {
        doubled(cube.q(), cube.r())
    }

    /// The cube coordinate whose q and r are `x()` and `y()`.
    pub fn to_cube(self) -> (c: CubeCoord<T>)
        requires
            in_unit::<T>(doubled_x(self@.0, self@.1)),
            in_unit::<T>(doubled_y(self@.0, self@.1)),
            cube_fits::<T>(doubled_x(self@.0, self@.1), doubled_y(self@.0, self@.1)),
        ensures
            c@ == cube_of(doubled_x(self@.0, self@.1), doubled_y(self@.0, self@.1)),
    {
        cube(self.x(), self.y())
    }

    /// The sum as this coordinate defines it: both components are
    /// `self.x() + rhs.y()`.
    pub fn add(self, rhs: Self) -> (d: Self)
        requires
            in_unit::<T>(doubled_x(self@.0, self@.1)),
            in_unit::<T>(doubled_y(rhs@.0, rhs@.1)),
            in_unit::<T>(doubled_x(self@.0, self@.1) + doubled_y(rhs@.0, rhs@.1)),
        ensures
            d@ == (
                doubled_x(self@.0, self@.1) + doubled_y(rhs@.0, rhs@.1),
                doubled_x(self@.0, self@.1) + doubled_y(rhs@.0, rhs@.1),
            ),
    {
        let v = self.x().add(rhs.y());
        DoubledCoord(v, v)
    }

    /// The difference as this coordinate defines it: both components are
    /// `self.x() - rhs.y()`.
    pub fn sub(self, rhs: Self) -> (d: Self)
        requires
            in_unit::<T>(doubled_x(self@.0, self@.1)),
            in_unit::<T>(doubled_y(rhs@.0, rhs@.1)),
            in_unit::<T>(doubled_x(self@.0, self@.1) - doubled_y(rhs@.0, rhs@.1)),
        ensures
            d@ == (
                doubled_x(self@.0, self@.1) - doubled_y(rhs@.0, rhs@.1),
                doubled_x(self@.0, self@.1) - doubled_y(rhs@.0, rhs@.1),
            ),
    {
        let v = self.x().sub(rhs.y());
        DoubledCoord(v, v)
    }
}

} // verus!
