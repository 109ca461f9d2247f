use automancy::math::hex::cube::{cube, CubeCoord, CubeDirection};
use automancy::math::hex::doubled::{doubled, DoubleSetting, DoubledCoord, DOUBLE_SETTING};
use automancy::math::hex::offset::{offset, OffsetCoord};
use automancy::math::hex::traits::{Coord, Direction, Unit};

#[test]
fn cube_fills_in_the_third_component() {
    let c = cube(1i32, 2i32);
    assert_eq!(c, CubeCoord(1, 2, -3));
    assert_eq!((c.q(), c.r(), c.s()), (1, 2, -3));
    assert_eq!(CubeCoord::new(-4i32, 1i32), CubeCoord(-4, 1, 3));
}

#[test]
fn cube_new_raw_keeps_components() {
    let c = CubeCoord::new_raw(1i32, 2i32, 3i32);
    assert_eq!((c.q(), c.r(), c.s()), (1, 2, 3));
}

#[test]
fn cube_arithmetic_is_componentwise() {
    let a = CubeCoord::new_raw(6i32, -4i32, -2i32);
    let b = CubeCoord::new_raw(2i32, 3i32, -5i32);
    assert_eq!(a.add(b), CubeCoord(8, -1, -7));
    assert_eq!(a.sub(b), CubeCoord(4, -7, 3));
    assert_eq!(a.mul(b), CubeCoord(12, -12, 10));
    assert_eq!(a.div(b), CubeCoord(3, -1, 0));
}

#[test]
fn cube_division_rounds_towards_zero() {
    let a = CubeCoord::new_raw(-7i32, 7i32, -1i32);
    let b = CubeCoord::new_raw(2i32, -2i32, 2i32);
    assert_eq!(a.div(b), CubeCoord(-3, -3, 0));
}

#[test]
fn cube_length_is_half_the_absolute_sum() {
    assert_eq!(Coord::length(&cube(3i32, -1i32)), 3);
    assert_eq!(Coord::length(&cube(0i32, 0i32)), 0);
    assert_eq!(Coord::length(&cube(-2i32, -2i32)), 4);
}

#[test]
fn cube_length_is_the_largest_component() {
    for (q, r) in [(3i32, -1i32), (-5, 2), (4, 4), (0, -6)] {
        let c = cube(q, r);
        let largest = c.q().abs().max(c.r().abs()).max(c.s().abs());
        assert_eq!(Coord::length(&c), largest);
    }
}

#[test]
fn cube_distance_counts_steps() {
    let a = cube(0i32, 0i32);
    let b = cube(2i32, -1i32);
    assert_eq!(a.distance(&b), 2);
    assert_eq!(cube(1i32, 1i32).distance(&cube(-2i32, 3i32)), 3);
}

#[test]
fn cube_distance_is_symmetric() {
    let a = cube(5i32, -3i32);
    let b = cube(-1i32, 4i32);
    assert_eq!(a.distance(&b), b.distance(&a));
    assert_eq!(a.distance(&b), 7);
}

#[test]
fn cube_distance_obeys_the_triangle_inequality() {
    let a = cube(5i32, -3i32);
    let b = cube(-1i32, 4i32);
    let c = cube(2i32, 2i32);
    assert!(a.distance(&b) <= a.distance(&c) + c.distance(&b));
}

#[test]
fn cube_works_for_small_units() {
    let c = cube(3i8, -7i8);
    assert_eq!(c, CubeCoord(3, -7, 4));
    assert_eq!(Coord::length(&c), 7i8);
    let d = cube(100i16, -40i16);
    assert_eq!(Coord::length(&d), 100i16);
    let e = cube(-9i64, 2i64);
    assert_eq!(Coord::length(&e), 9i64);
}

#[test]
fn unit_constants_and_operations() {
    assert_eq!(<i32 as Unit>::zero(), 0);
    assert_eq!(<i32 as Unit>::one(), 1);
    assert_eq!(<i32 as Unit>::neg_one(), -1);
    assert_eq!(<i32 as Unit>::two(), 2);
    assert_eq!(Unit::div(-7i32, 2), -3);
    assert_eq!(Unit::abs(-7i16), 7);
    assert!(Unit::is_negative(-1isize));
    assert!(!Unit::is_negative(0i8));
}

#[test]
fn directions_are_listed_in_order() {
    assert_eq!(
        CubeDirection::get_directions(),
        [
            CubeDirection::R_,
            CubeDirection::RU,
            CubeDirection::LU,
            CubeDirection::L_,
            CubeDirection::LD,
            CubeDirection::RD,
        ]
    );
    assert_eq!(CubeDirection::DIRECTIONS, CubeDirection::get_directions());
    assert_eq!(CubeDirection::LEN, 6);
}

#[test]
fn direction_vectors() {
    assert_eq!(CubeDirection::R_.to_cube::<i32>(), CubeCoord(1, 0, -1));
    assert_eq!(CubeDirection::RU.to_cube::<i32>(), CubeCoord(1, -1, 0));
    assert_eq!(CubeDirection::LU.to_cube::<i32>(), CubeCoord(0, -1, 1));
    assert_eq!(CubeDirection::L_.to_cube::<i32>(), CubeCoord(-1, 0, 1));
    assert_eq!(CubeDirection::LD.to_cube::<i32>(), CubeCoord(-1, 1, 0));
    assert_eq!(CubeDirection::RD.to_cube::<i32>(), CubeCoord(0, -1, 1));
}

#[test]
fn every_direction_is_one_step_long() {
    for d in CubeDirection::get_directions() {
        let v: CubeCoord<i32> = d.to_unit_coord();
        assert_eq!(Coord::length(&v), 1);
    }
}

#[test]
fn direction_by_index_wraps_around() {
    type D = CubeDirection;
    assert_eq!(<D as Direction<i32, CubeCoord<i32>, 6>>::direction_at(2), D::LU);
    assert_eq!(<D as Direction<i32, CubeCoord<i32>, 6>>::direction(7), D::RU);
    assert_eq!(<D as Direction<i32, CubeCoord<i32>, 6>>::direction(12), D::R_);
    assert_eq!(<D as Direction<i32, CubeCoord<i32>, 6>>::signed_direction(-1), D::RD);
    assert_eq!(<D as Direction<i32, CubeCoord<i32>, 6>>::signed_direction(-7), D::RD);
    assert_eq!(<D as Direction<i32, CubeCoord<i32>, 6>>::signed_direction(-6), D::R_);
    assert_eq!(<D as Direction<i32, CubeCoord<i32>, 6>>::signed_direction(3), D::L_);
}

#[test]
fn direction_is_periodic() {
    type D = CubeDirection;
    for i in 0..6usize {
        let a = <D as Direction<i32, CubeCoord<i32>, 6>>::direction(i);
        let b = <D as Direction<i32, CubeCoord<i32>, 6>>::direction(i + 6);
        let c = <D as Direction<i32, CubeCoord<i32>, 6>>::signed_direction(i as isize - 6);
        assert_eq!(a, b);
        assert_eq!(a, c);
    }
}

#[test]
fn doubled_coordinates_double_x() {
    assert_eq!(DOUBLE_SETTING, DoubleSetting::W);
    let d = doubled(3i32, 4i32);
    assert_eq!(d.x(), 6);
    assert_eq!(d.y(), 4);
}

#[test]
fn doubled_from_and_to_cube() {
    let d: DoubledCoord<i32> = DoubledCoord::from_cube(cube(2, 5));
    assert_eq!(d, doubled(2, 5));
    assert_eq!(d.to_cube(), CubeCoord(4, 5, -9));
}

#[test]
fn doubled_add_and_sub() {
    let a = doubled(1i32, 2i32);
    let b = doubled(3i32, 4i32);
    assert_eq!(a.add(b), doubled(6, 6));
    assert_eq!(a.sub(b), doubled(-2, -2));
}

#[test]
fn offset_accessors() {
    let o = offset(3i32, -2i32);
    assert_eq!((o.x(), o.y()), (3, -2));
    assert_eq!(OffsetCoord::new_array([3i32, -2i32]), o);
    assert_eq!(OffsetCoord::new(3i32, -2i32), o);
}

#[test]
fn offset_flat_top_conversions() {
    assert_eq!(OffsetCoord::from_cube_as_flat_top(&cube(3i32, 1i32)), offset(3, 2));
    assert_eq!(OffsetCoord::from_cube_as_flat_top(&cube(-3i32, 1i32)), offset(-3, 0));
    assert_eq!(offset(3i32, 2i32).to_cube_as_flat_top(), CubeCoord(3, 0, -3));
    assert_eq!(offset(1i32, 6i32).to_cube_as_flat_top(), CubeCoord(1, 2, -3));
}

#[test]
fn offset_pointy_top_conversions() {
    assert_eq!(OffsetCoord::from_cube_as_pointy_top(&cube(1i32, 3i32)), offset(2, 3));
    assert_eq!(offset(2i32, 3i32).to_cube_as_pointy_top(), CubeCoord(0, 2, -2));
    assert_eq!(offset(2i32, 8i32).to_cube_as_pointy_top(), CubeCoord(3, 2, -5));
}
