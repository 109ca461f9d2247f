use vstd::prelude::*;

use hexagon_tiles::hexagon::{Hex, HexMath, HexUtility};

use crate::math::hex::cube::{cube_fits, cube_length, cube_of, cube_sub, in_unit};
use crate::math::hex::traits::trunc_div;
use crate::util::text::{decimal, push_char, push_decimal};

verus! {

/// The type of number that is stored in a tile's coordinates.
pub type TileUnit = i32;

/// The size of a chunk: the radius of the hexagon of tiles it covers.
pub const CHUNK_SIZE: TileUnit = 16;

/// The square of the chunk size.
pub const CHUNK_SIZE_SQUARED: TileUnit = 256;

/// Whether `(q, r, -q - r)` is a valid tile coordinate: all three
/// components, and the negation of q, fit in a `TileUnit`.
pub open spec fn tile_fits(q: int, r: int) -> bool {
    in_unit::<TileUnit>(q) && in_unit::<TileUnit>(r) && cube_fits::<TileUnit>(q, r)
}

/// A tile's position on the hexagonal grid, in cube coordinates `(q, r, s)`
/// with `q + r + s == 0`.
#[derive(Debug, Clone, Copy, PartialEq, Eq, Hash, Structural)]
pub struct TileCoord {
    q: TileUnit,
    r: TileUnit,
}

impl TileCoord {
    #[verifier::type_invariant]
    spec fn valid(self) -> bool {
        tile_fits(self.q as int, self.r as int)
    }
}

impl View for TileCoord {
    type V = (int, int, int);

    closed spec fn view(&self) -> (int, int, int) {
        cube_of(self.q as int, self.r as int)
    }
}

/// Builds a hexagon with `hexagon_tiles::hexagon::Hex::new` and reads its
/// components back.
///
/// Trusted: `Hex::new(q, r)` stores `q`, `r` and `s = -q - r`, as its source
/// shows; `Hex::q` and `Hex::r` return the stored fields.
#[verifier::external_body]
fn hex_new(q: TileUnit, r: TileUnit) -> (c: TileCoord)
    requires
        tile_fits(q as int, r as int),
    ensures
        c@ == cube_of(q as int, r as int),
{
    let h = Hex::new(q, r);
    TileCoord { q: h.q(), r: h.r() }
}

/// Adds two hexagons with `hexagon_tiles::hexagon::HexMath::add`.
///
/// Trusted: `HexMath::add` adds the three components pairwise, as its source
/// shows.
#[verifier::external_body]
fn hex_add(a: TileCoord, b: TileCoord) -> (c: TileCoord)
    requires
        tile_fits(a@.0 + b@.0, a@.1 + b@.1),
    ensures
        c@ == cube_of(a@.0 + b@.0, a@.1 + b@.1),
{
    let h = Hex::new(a.q, a.r).add(Hex::new(b.q, b.r));
    TileCoord { q: h.q(), r: h.r() }
}

/// Subtracts two hexagons with `hexagon_tiles::hexagon::HexMath::sub`.
///
/// Trusted: `HexMath::sub` subtracts the three components pairwise, as its
/// source shows.
#[verifier::external_body]
fn hex_sub(a: TileCoord, b: TileCoord) -> (c: TileCoord)
    requires
        tile_fits(a@.0 - b@.0, a@.1 - b@.1),
    ensures
        c@ == cube_of(a@.0 - b@.0, a@.1 - b@.1),
{
    let h = Hex::new(a.q, a.r).sub(Hex::new(b.q, b.r));
    TileCoord { q: h.q(), r: h.r() }
}

/// Scales a hexagon with `hexagon_tiles::hexagon::HexMath::scale`.
///
/// Trusted: `HexMath::scale` multiplies each component by `k`, as its source
/// shows.
#[verifier::external_body]
fn hex_scale(a: TileCoord, k: TileUnit) -> (c: TileCoord)
    requires
        tile_fits(a@.0 * k, a@.1 * k),
        in_unit::<TileUnit>(a@.2 * k),
    ensures
        c@ == cube_of(a@.0 * k, a@.1 * k),
{
    let h = Hex::new(a.q, a.r).scale(k);
    TileCoord { q: h.q(), r: h.r() }
}

/// Measures the distance between two hexagons with
/// `hexagon_tiles::hexagon::HexUtility::distance`.
///
/// Trusted: `HexUtility::distance` returns half the sum of the absolute values
/// of the componentwise difference, as its source shows.
#[verifier::external_body]
fn hex_distance(a: TileCoord, b: TileCoord) -> (d: TileUnit)
    requires
        tile_distance_fits(a@, b@),
    ensures
        d as int == cube_length(cube_sub(a@, b@)),
{
    Hex::new(a.q, a.r).distance(Hex::new(b.q, b.r))
}

/// Whether the distance between `a` and `b` can be computed without
/// overflow.
pub open spec fn tile_distance_fits(a: (int, int, int), b: (int, int, int)) -> bool {
    let d = cube_sub(a, b);
    &&& in_unit::<TileUnit>(d.0) && in_unit::<TileUnit>(-d.0)
    &&& in_unit::<TileUnit>(d.1) && in_unit::<TileUnit>(-d.1)
    &&& in_unit::<TileUnit>(d.2) && in_unit::<TileUnit>(-d.2)
    &&& in_unit::<TileUnit>(crate::math::hex::traits::abs_int(d.0) + crate::math::hex::traits::abs_int(d.1))
    &&& in_unit::<TileUnit>(crate::math::hex::traits::abs_int(d.0) + crate::math::hex::traits::abs_int(d.1) + crate::math::hex::traits::abs_int(d.2))
}

/// Whether `v` fits in a `TileUnit`.
fn fits_unit(v: i64) -> (b: bool)
    ensures
        b == in_unit::<TileUnit>(v as int),
{
    i32::MIN as i64 <= v && v <= i32::MAX as i64
}

/// Whether the distance between `a` and `b` can be computed without
/// overflow: exactly `tile_distance_fits`.
pub fn distance_fits(a: TileCoord, b: TileCoord) -> (r: bool)
    ensures
        r == tile_distance_fits(a@, b@),
{
    distance_fits_to(a, b.q(), b.r())
}

/// Whether the distance between `a` and the position `(q, r, -q - r)` can
/// be computed without overflow.
pub fn distance_fits_to(a: TileCoord, q: TileUnit, r: TileUnit) -> (ok: bool)
    ensures
        ok == tile_distance_fits(a@, cube_of(q as int, r as int)),
{
    let d0: i64 = a.q() as i64 - q as i64;
    let d1: i64 = a.r() as i64 - r as i64;
    let d2: i64 = a.s() as i64 - (-(q as i64) - r as i64);
    let a0: i64 = if d0 < 0 { -d0 } else { d0 };
    let a1: i64 = if d1 < 0 { -d1 } else { d1 };
    let a2: i64 = if d2 < 0 { -d2 } else { d2 };
    fits_unit(d0) && fits_unit(-d0) && fits_unit(d1) && fits_unit(-d1) && fits_unit(d2) && fits_unit(-d2)
        && fits_unit(a0 + a1) && fits_unit(a0 + a1 + a2)
}

/// The unit vectors `hexagon_tiles::hexagon::HEX_DIRECTIONS` lists, in its order.
pub open spec fn neighbor_vector(i: int) -> (int, int, int) {
    if i == 0 {
        (1, 0, -1)
    } else if i == 1 {
        (1, -1, 0)
    } else if i == 2 {
        (0, -1, 1)
    } else if i == 3 {
        (-1, 0, 1)
    } else if i == 4 {
        (-1, 1, 0)
    } else {
        (0, 1, -1)
    }
}

/// The diagonal vectors `hexagon_tiles::hexagon::HEX_DIAGONALS` lists, in its order.
pub open spec fn diagonal_vector(i: int) -> (int, int, int) {
    if i == 0 {
        (2, -1, -1)
    } else if i == 1 {
        (1, -2, 1)
    } else if i == 2 {
        (-1, -1, 2)
    } else if i == 3 {
        (-2, 1, 1)
    } else if i == 4 {
        (-1, 2, -1)
    } else {
        (1, 1, -2)
    }
}

/// Reads entry `i` of `hexagon_tiles::hexagon::HEX_DIRECTIONS`.
///
/// Trusted: the table's source lists the six unit vectors of `neighbor_vector`
/// in that order.
#[verifier::external_body]
fn hex_neighbor(i: usize) -> (c: TileCoord)
    requires
        i < 6,
    ensures
        c@ == neighbor_vector(i as int),
{
    let h = hexagon_tiles::hexagon::HEX_DIRECTIONS[i];
    TileCoord { q: h.q(), r: h.r() }
}

/// Reads entry `i` of `hexagon_tiles::hexagon::HEX_DIAGONALS`.
///
/// Trusted: the table's source lists the six diagonal vectors of
/// `diagonal_vector` in that order.
#[verifier::external_body]
fn hex_diagonal(i: usize) -> (c: TileCoord)
    requires
        i < 6,
    ensures
        c@ == diagonal_vector(i as int),
{
    let h = hexagon_tiles::hexagon::HEX_DIAGONALS[i];
    TileCoord { q: h.q(), r: h.r() }
}

/// The sum of two cube coordinates.
pub open spec fn plus(a: (int, int, int), b: (int, int, int)) -> (int, int, int) {
    cube_of(a.0 + b.0, a.1 + b.1)
}

/// The order in which `neighbors` lists the neighbor table's entries.
pub open spec fn neighbor_order(k: int) -> int {
    if k == 0 { 2 } else if k == 1 { 3 } else if k == 2 { 4 } else if k == 3 { 5 } else if k == 4 { 0 } else { 1 }
}

/// The order in which `diagonals` lists the diagonal table's entries.
pub open spec fn diagonal_order(k: int) -> int {
    if k == 0 { 1 } else if k == 1 { 0 } else if k == 2 { 5 } else if k == 3 { 4 } else if k == 4 { 3 } else { 2 }
}

/// Whether every component of `c` is at most `bound` in absolute value.
pub open spec fn small(c: (int, int, int), bound: int) -> bool {
    -bound <= c.0 <= bound && -bound <= c.1 <= bound && -bound <= c.2 <= bound
}

impl TileCoord {
    /// The tile at position (0, 0, 0).
    pub fn zero() -> (c: TileCoord)
        ensures
            c@ == cube_of(0, 0),
    {
        TileCoord::new(0, 0)
    }

    /// The adjacent coordinate to the top right. (entry 2 of the neighbor table).
    pub fn top_right() -> (c: TileCoord)
        ensures
            c@ == neighbor_vector(2),
    {
        hex_neighbor(2)
    }

    /// The adjacent coordinate to the right. (entry 3 of the neighbor table).
    pub fn right() -> (c: TileCoord)
        ensures
            c@ == neighbor_vector(3),
    {
        hex_neighbor(3)
    }

    /// The adjacent coordinate to the bottom right. (entry 4 of the neighbor table).
    pub fn bottom_right() -> (c: TileCoord)
        ensures
            c@ == neighbor_vector(4),
    {
        hex_neighbor(4)
    }

    /// The adjacent coordinate to the bottom left. (entry 5 of the neighbor table).
    pub fn bottom_left() -> (c: TileCoord)
        ensures
            c@ == neighbor_vector(5),
    {
        hex_neighbor(5)
    }

    /// The adjacent coordinate to the left. (entry 0 of the neighbor table).
    pub fn left() -> (c: TileCoord)
        ensures
            c@ == neighbor_vector(0),
    {
        hex_neighbor(0)
    }

    /// The adjacent coordinate to the top left. (entry 1 of the neighbor table).
    pub fn top_left() -> (c: TileCoord)
        ensures
            c@ == neighbor_vector(1),
    {
        hex_neighbor(1)
    }

    /// The diagonal coordinate to the top. (entry 1 of the diagonal table).
    pub fn diag_top() -> (c: TileCoord)
        ensures
            c@ == diagonal_vector(1),
    {
        hex_diagonal(1)
    }

    /// The diagonal coordinate to the top right. (entry 0 of the diagonal table).
    pub fn diag_top_right() -> (c: TileCoord)
        ensures
            c@ == diagonal_vector(0),
    {
        hex_diagonal(0)
    }

    /// The diagonal coordinate to the bottom right. (entry 5 of the diagonal table).
    pub fn diag_bottom_right() -> (c: TileCoord)
        ensures
            c@ == diagonal_vector(5),
    {
        hex_diagonal(5)
    }

    /// The diagonal coordinate to the bottom. (entry 4 of the diagonal table).
    pub fn diag_bottom() -> (c: TileCoord)
        ensures
            c@ == diagonal_vector(4),
    {
        hex_diagonal(4)
    }

    /// The diagonal coordinate to the bottom left. (entry 3 of the diagonal table).
    pub fn diag_bottom_left() -> (c: TileCoord)
        ensures
            c@ == diagonal_vector(3),
    {
        hex_diagonal(3)
    }

    /// The diagonal coordinate to the top left. (entry 2 of the diagonal table).
    pub fn diag_top_left() -> (c: TileCoord)
        ensures
            c@ == diagonal_vector(2),
    {
        hex_diagonal(2)
    }

    /// The coordinate `(q, r, -q - r)`.
    pub fn new(q: TileUnit, r: TileUnit) -> (c: TileCoord)
        requires
            tile_fits(q as int, r as int),
        ensures
            c@ == cube_of(q as int, r as int),
    {
        hex_new(q, r)
    }

    /// The q component. The coordinate's q and r make a valid tile
    /// coordinate.
    pub fn q(self) -> (v: TileUnit)
        ensures
            v as int == self@.0,
            tile_fits(self@.0, self@.1),
    {
        proof {
            use_type_invariant(self);
        }
        self.q
    }

    /// The r component.
    pub fn r(self) -> (v: TileUnit)
        ensures
            v as int == self@.1,
    {
        self.r
    }

    /// The s component: `-q - r`.
    pub fn s(self) -> (v: TileUnit)
        ensures
            v as int == self@.2,
    {
        proof {
            use_type_invariant(self);
        }
        -self.q - self.r
    }

    /// The coordinate as `q,r`.
    pub fn to_minimal_string(self) -> (s: String)
        ensures
            s@ == decimal(self@.0) + seq![','] + decimal(self@.1),
    {
        let mut s = String::new();
        push_decimal(&mut s, self.q);
        push_char(&mut s, ',');
        push_decimal(&mut s, self.r);
        s
    }

    /// The coordinate as `[q, r]`, as it is displayed.
    pub fn to_string(self) -> (s: String)
        ensures
            s@ == seq!['['] + decimal(self@.0) + seq![',', ' '] + decimal(self@.1) + seq![']'],
    {
        let mut s = String::new();
        push_char(&mut s, '[');
        push_decimal(&mut s, self.q);
        push_char(&mut s, ',');
        push_char(&mut s, ' ');
        push_decimal(&mut s, self.r);
        push_char(&mut s, ']');
        assert(s@ =~= seq!['['] + decimal(self@.0) + seq![',', ' '] + decimal(self@.1) + seq![']']);
        s
    }

    /// Two coordinates are equal exactly when their cube coordinates are.
    pub proof fn lemma_view_injective(self, other: TileCoord)
        ensures
            (self == other) <==> self@ == other@,
    {
        if self@ == other@ {
            assert(self.q == other.q && self.r == other.r);
        }
    }

    /// Every coordinate's components sum to zero.
    pub broadcast proof fn lemma_cube(self)
        ensures
            #[trigger] self@ == cube_of(self@.0, self@.1),
    {
    }

    /// Componentwise sum.
    pub fn add(self, rhs: TileCoord) -> (c: TileCoord)
        requires
            tile_fits(self@.0 + rhs@.0, self@.1 + rhs@.1),
        ensures
            c@ == cube_of(self@.0 + rhs@.0, self@.1 + rhs@.1),
    {
        hex_add(self, rhs)
    }

    /// Componentwise difference.
    pub fn sub(self, rhs: TileCoord) -> (c: TileCoord)
        requires
            tile_fits(self@.0 - rhs@.0, self@.1 - rhs@.1),
        ensures
            c@ == cube_of(self@.0 - rhs@.0, self@.1 - rhs@.1),
    {
        hex_sub(self, rhs)
    }

    /// Each component multiplied by `rhs`.
    pub fn mul(self, rhs: TileUnit) -> (c: TileCoord)
        requires
            tile_fits(self@.0 * rhs, self@.1 * rhs),
            in_unit::<TileUnit>(self@.2 * rhs),
        ensures
            c@ == cube_of(self@.0 * rhs, self@.1 * rhs),
    {
        hex_scale(self, rhs)
    }

    /// The coordinate whose q and r are those of `self` divided by `rhs`,
    /// rounded towards zero.
    pub fn div(self, rhs: TileUnit) -> (c: TileCoord)
        requires
            rhs != 0,
            in_unit::<TileUnit>(trunc_div(self@.1, rhs as int)),
            tile_fits(trunc_div(self@.0, rhs as int), trunc_div(self@.1, rhs as int)),
        ensures
            c@ == cube_of(trunc_div(self@.0, rhs as int), trunc_div(self@.1, rhs as int)),
    {
        proof {
            use_type_invariant(self);
        }
        let q = <TileUnit as crate::math::hex::traits::Unit>::div(self.q, rhs);
        let r = <TileUnit as crate::math::hex::traits::Unit>::div(self.r, rhs);
        TileCoord::new(q, r)
    }

    /// The coordinate pointing the opposite way.
    pub fn neg(self) -> (c: TileCoord)
        requires
            in_unit::<TileUnit>(-self@.1),
            tile_fits(-self@.0, -self@.1),
        ensures
            c@ == cube_of(-self@.0, -self@.1),
    {
        proof {
            use_type_invariant(self);
        }
        TileCoord::new(-self.q, -self.r)
    }

    /// The number of steps between two tiles.
    pub fn distance(self, other: TileCoord) -> (d: TileUnit)
        requires
            tile_distance_fits(self@, other@),
        ensures
            d as int == cube_length(cube_sub(self@, other@)),
    {
        hex_distance(self, other)
    }

    /// Entry `i` of the neighbor table.
    pub fn neighbor(i: usize) -> (c: TileCoord)
        requires
            i < 6,
        ensures
            c@ == neighbor_vector(i as int),
    {
        hex_neighbor(i)
    }

    /// The six adjacent coordinates: top right, right, bottom right,
    /// bottom left, left, top left.
    pub fn neighbors(self) -> (ns: [TileCoord; 6])
        requires
            small(self@, i32::MAX - 1),
        ensures
            forall|k: int| 0 <= k < 6 ==> (#[trigger] ns@[k])@ == plus(self@, neighbor_vector(neighbor_order(k))),
    {
        let ns = [
            self.add(Self::top_right()),
            self.add(Self::right()),
            self.add(Self::bottom_right()),
            self.add(Self::bottom_left()),
            self.add(Self::left()),
            self.add(Self::top_left()),
        ];
        ns
    }

    /// The six diagonal coordinates: top, top right, bottom right, bottom,
    /// bottom left, top left.
    pub fn diagonals(self) -> (ns: [TileCoord; 6])
        requires
            small(self@, i32::MAX - 2),
        ensures
            forall|k: int| 0 <= k < 6 ==> (#[trigger] ns@[k])@ == plus(self@, diagonal_vector(diagonal_order(k))),
    {
        let ns = [
            self.add(Self::diag_top()),
            self.add(Self::diag_top_right()),
            self.add(Self::diag_bottom_right()),
            self.add(Self::diag_bottom()),
            self.add(Self::diag_bottom_left()),
            self.add(Self::diag_top_left()),
        ];
        ns
    }
}

/// A chunk's position on the grid of chunks, in cube coordinates.
#[derive(Debug, Clone, Copy, PartialEq, Eq, Hash, Structural)]
pub struct ChunkCoord(TileCoord);

impl View for ChunkCoord {
    type V = (int, int, int);

    closed spec fn view(&self) -> (int, int, int) {
        self.0@
    }
}

/// The tile at the center of the chunk at `(q, r)`.
pub open spec fn chunk_center(q: int, r: int) -> (int, int, int) {
    cube_of(q * 16 - 17 * r, q * 17 + r * 33)
}

/// Whether the center of the chunk `(q, r)` can be computed without
/// overflow: each product, the difference and the sum fit, and they make a
/// valid tile coordinate.
pub open spec fn chunk_center_fits(q: int, r: int) -> bool {
    &&& in_unit::<TileUnit>(q * 16) && in_unit::<TileUnit>(17 * r)
    &&& in_unit::<TileUnit>(q * 17) && in_unit::<TileUnit>(r * 33)
    &&& tile_fits(q * 16 - 17 * r, q * 17 + r * 33)
}

impl ChunkCoord {
    /// The chunk whose cube coordinates are those of `c`.
    pub fn from_tile_hex(c: TileCoord) -> (k: ChunkCoord)
        ensures
            k@ == c@,
    {
        ChunkCoord(c)
    }

    /// The chunk coordinate `(q, r, -q - r)`.
    pub fn new(q: TileUnit, r: TileUnit) -> (k: ChunkCoord)
        requires
            tile_fits(q as int, r as int),
        ensures
            k@ == cube_of(q as int, r as int),
    {
        ChunkCoord(TileCoord::new(q, r))
    }

    /// The cube coordinates of the chunk, as a tile coordinate.
    pub fn as_tile_hex(self) -> (c: TileCoord)
        ensures
            c@ == self@,
    {
        self.0
    }

    /// Every chunk coordinate's components sum to zero.
    pub broadcast proof fn lemma_cube(self)
        ensures
            #[trigger] self@ == cube_of(self@.0, self@.1),
    {
        self.0.lemma_cube();
    }

    pub fn q(self) -> (v: TileUnit)
        ensures
            v as int == self@.0,
    {
        self.0.q()
    }

    pub fn r(self) -> (v: TileUnit)
        ensures
            v as int == self@.1,
    {
        self.0.r()
    }

    pub fn s(self) -> (v: TileUnit)
        ensures
            v as int == self@.2,
    {
        self.0.s()
    }

    /// The chunk coordinate as `q,r`.
    pub fn to_minimal_string(self) -> (s: String)
        ensures
            s@ == decimal(self@.0) + seq![','] + decimal(self@.1),
    {
        self.0.to_minimal_string()
    }

    /// Componentwise sum.
    pub fn add(self, rhs: ChunkCoord) -> (c: ChunkCoord)
        requires
            tile_fits(self@.0 + rhs@.0, self@.1 + rhs@.1),
        ensures
            c@ == cube_of(self@.0 + rhs@.0, self@.1 + rhs@.1),
    {
        ChunkCoord(self.0.add(rhs.0))
    }

    /// Componentwise difference.
    pub fn sub(self, rhs: ChunkCoord) -> (c: ChunkCoord)
        requires
            tile_fits(self@.0 - rhs@.0, self@.1 - rhs@.1),
        ensures
            c@ == cube_of(self@.0 - rhs@.0, self@.1 - rhs@.1),
    {
        ChunkCoord(self.0.sub(rhs.0))
    }

    /// Each component multiplied by `rhs`.
    pub fn mul(self, rhs: TileUnit) -> (c: ChunkCoord)
        requires
            tile_fits(self@.0 * rhs, self@.1 * rhs),
            in_unit::<TileUnit>(self@.2 * rhs),
        ensures
            c@ == cube_of(self@.0 * rhs, self@.1 * rhs),
    {
        ChunkCoord(self.0.mul(rhs))
    }

    /// The chunk whose q and r are those of `self` divided by `rhs`, rounded
    /// towards zero.
    pub fn div(self, rhs: TileUnit) -> (c: ChunkCoord)
        requires
            rhs != 0,
            in_unit::<TileUnit>(trunc_div(self@.1, rhs as int)),
            tile_fits(trunc_div(self@.0, rhs as int), trunc_div(self@.1, rhs as int)),
        ensures
            c@ == cube_of(trunc_div(self@.0, rhs as int), trunc_div(self@.1, rhs as int)),
    {
        ChunkCoord(self.0.div(rhs))
    }

    /// The chunk in the opposite direction.
    pub fn neg(self) -> (c: ChunkCoord)
        requires
            in_unit::<TileUnit>(-self@.1),
            tile_fits(-self@.0, -self@.1),
        ensures
            c@ == cube_of(-self@.0, -self@.1),
    {
        ChunkCoord(self.0.neg())
    }

    /// The six adjacent chunks: top right, right, bottom right, bottom left,
    /// left, top left.
    pub fn neighbors(self) -> (ns: [ChunkCoord; 6])
        requires
            small(self@, i32::MAX - 1),
        ensures
            forall|k: int| 0 <= k < 6 ==> (#[trigger] ns@[k])@ == plus(self@, neighbor_vector(neighbor_order(k))),
    {
        let t = self.0.neighbors();
        [ChunkCoord(t[0]), ChunkCoord(t[1]), ChunkCoord(t[2]), ChunkCoord(t[3]), ChunkCoord(t[4]), ChunkCoord(t[5])]
    }

    /// The six diagonal chunks: top, top right, bottom right, bottom,
    /// bottom left, top left.
    pub fn diagonals(self) -> (ns: [ChunkCoord; 6])
        requires
            small(self@, i32::MAX - 2),
        ensures
            forall|k: int| 0 <= k < 6 ==> (#[trigger] ns@[k])@ == plus(self@, diagonal_vector(diagonal_order(k))),
    {
        let t = self.0.diagonals();
        [ChunkCoord(t[0]), ChunkCoord(t[1]), ChunkCoord(t[2]), ChunkCoord(t[3]), ChunkCoord(t[4]), ChunkCoord(t[5])]
    }

    /// The tile at the center of this chunk.
    pub fn center(self) -> (c: TileCoord)
        requires
            chunk_center_fits(self@.0, self@.1),
        ensures
            c@ == chunk_center(self@.0, self@.1),
    {
        TileCoord::from_chunk(self)
    }

    /// Every tile of this chunk: the tiles within `CHUNK_SIZE` steps of its
    /// center, in the order the hexagonal range lists them.
    pub fn iter(&self) -> (tiles: Vec<TileCoord>)
        requires
            chunk_center_fits(self@.0, self@.1),
            small(chunk_center(self@.0, self@.1), i32::MAX - CHUNK_SIZE),
        ensures
            tiles@.len() == hex_range(CHUNK_SIZE as int).len(),
            forall|i: int|
                0 <= i < tiles@.len() ==> (#[trigger] tiles@[i])@ == plus(
                    hex_range(CHUNK_SIZE as int)[i],
                    chunk_center(self@.0, self@.1),
                ),
    {
        let center = TileCoord::from_chunk(*self);
        let mut range = HexRangeIterator::new(CHUNK_SIZE);
        let mut tiles: Vec<TileCoord> = Vec::new();
        let ghost all = range.remaining();
        proof {
            lemma_hex_range_bounded(CHUNK_SIZE as int);
        }
        loop
            invariant
                range.wf(),
                all == hex_range(CHUNK_SIZE as int),
                all == tiles@.map_values(|t: TileCoord| cube_sub(t@, center@)) + range.remaining(),
                center@ == chunk_center(self@.0, self@.1),
                small(center@, i32::MAX - CHUNK_SIZE),
                forall|i: int| 0 <= i < all.len() ==> small(#[trigger] all[i], 16),
                forall|i: int|
                    0 <= i < tiles@.len() ==> (#[trigger] tiles@[i])@ == plus(all[i], center@),
            ensures
                tiles@.len() == all.len(),
                forall|i: int|
                    0 <= i < tiles@.len() ==> (#[trigger] tiles@[i])@ == plus(all[i], center@),
            decreases range.remaining().len(),
        {
            let ghost before = range.remaining();
            match range.next() {
                Some(hex) => {
                    let ghost k = tiles@.len() as int;
                    assert(all[k] == before[0]);
                    let tile = hex.add(center);
                    tiles.push(tile);
                    assert(all =~= tiles@.map_values(|t: TileCoord| cube_sub(t@, center@)) + range.remaining());
                },
                None => {
                    assert(all =~= tiles@.map_values(|t: TileCoord| cube_sub(t@, center@)));
                    assert(all.len() == tiles@.len());
                    break;
                },
            }
        }
        tiles
    }
}

impl TileCoord {
    /// The tile at the center of chunk `c`:
    /// `(16q - 17r, 17q + 33r)`.
    pub fn from_chunk(c: ChunkCoord) -> (t: TileCoord)
        requires
            chunk_center_fits(c@.0, c@.1),
        ensures
            t@ == chunk_center(c@.0, c@.1),
    {
        let q = c.q();
        let r = c.r();
        assert(CHUNK_SIZE == 16);
        TileCoord::new(q * CHUNK_SIZE - (CHUNK_SIZE + 1) * r, q * (CHUNK_SIZE + 1) + r * (2 * CHUNK_SIZE + 1))
    }
}

/// The inclusive range `lo..=hi` of r values, paired with `q`.
pub open spec fn row_from(q: int, lo: int, hi: int) -> Seq<(int, int, int)>
    decreases hi - lo + 1,
{
    if lo > hi {
        Seq::empty()
    } else {
        seq![cube_of(q, lo)] + row_from(q, lo + 1, hi)
    }
}

/// The lowest r of column `q` within `size` steps of the origin.
pub open spec fn row_lo(q: int, size: int) -> int {
    if -size >= -q - size { -size } else { -q - size }
}

/// The highest r of column `q` within `size` steps of the origin.
pub open spec fn row_hi(q: int, size: int) -> int {
    if size <= -q + size { size } else { -q + size }
}

/// The columns `qa..=qb` within `size` steps of the origin, one after the
/// other.
pub open spec fn rows_from(qa: int, qb: int, size: int) -> Seq<(int, int, int)>
    decreases qb - qa + 1,
{
    if qa > qb {
        Seq::empty()
    } else {
        row_from(qa, row_lo(qa, size), row_hi(qa, size)) + rows_from(qa + 1, qb, size)
    }
}

/// Every coordinate within `size` steps of the origin, column by column from
/// `q = -size`, each column by increasing r.
pub open spec fn hex_range(size: int) -> Seq<(int, int, int)> {
    rows_from(-size, size, size)
}

/// The values that an inclusive range `next..=end` still yields.
pub open spec fn range_rest(next: int, end: int, exhausted: bool) -> (int, int) {
    if exhausted { (1, 0) } else { (next, end) }
}

/// Walks through every coordinate within a given number of steps of the
/// origin, as the range `HexRangeIterator::remaining` lists.
pub struct HexRangeIterator {
    q_next: TileUnit,
    q_end: TileUnit,
    q_exhausted: bool,
    r_next: TileUnit,
    r_end: TileUnit,
    r_exhausted: bool,
    current_q: TileUnit,
    size: TileUnit,
}

/// Steps an inclusive range `*next..=end` once, as `RangeInclusive::next`
/// does.
fn step_range(next: &mut TileUnit, end: TileUnit, exhausted: &mut bool) -> (v: Option<TileUnit>)
    ensures
        ({
            let (a, b) = range_rest(*old(next) as int, end as int, *old(exhausted));
            let (a2, b2) = range_rest(*final(next) as int, end as int, *final(exhausted));
            if a > b {
                v is None && a2 > b2
            } else {
                &&& v == Some(a as TileUnit)
                &&& a + 1 <= b ==> (a2 == a + 1 && b2 == b)
                &&& a + 1 > b ==> a2 > b2
            }
        }),
{
    if *exhausted || *next > end {
        *exhausted = true;
        None
    } else if *next < end {
        let v = *next;
        *next = *next + 1;
        Some(v)
    } else {
        *exhausted = true;
        Some(*next)
    }
}

impl HexRangeIterator {
    /// The internal consistency of the walk.
    pub closed spec fn wf(&self) -> bool {
        let (qa, qb) = range_rest(self.q_next as int, self.q_end as int, self.q_exhausted);
        let (ra, rb) = range_rest(self.r_next as int, self.r_end as int, self.r_exhausted);
        &&& i32::MIN + 2 <= self.size <= 0x40000000
        &&& qa <= qb ==> (-self.size < qa && qb == self.size)
        &&& self.size < 0 ==> qa > qb && ra > rb
        &&& self.size >= 0 ==> -self.size <= self.current_q <= self.size
        &&& ra <= rb ==> (row_lo(self.current_q as int, self.size as int) <= ra && rb <= row_hi(
            self.current_q as int,
            self.size as int,
        ))
    }

    /// The coordinates the walk still yields, in order.
    pub closed spec fn remaining(&self) -> Seq<(int, int, int)> {
        let (qa, qb) = range_rest(self.q_next as int, self.q_end as int, self.q_exhausted);
        let (ra, rb) = range_rest(self.r_next as int, self.r_end as int, self.r_exhausted);
        row_from(self.current_q as int, ra, rb) + rows_from(qa, qb, self.size as int)
    }

    /// A walk through every coordinate within `range` steps of the origin;
    /// an empty walk for a negative range.
    pub fn new(range: TileUnit) -> (it: HexRangeIterator)
        requires
            i32::MIN + 2 <= range <= 0x40000000,
        ensures
            it.wf(),
            it.remaining() == hex_range(range as int),
    {
        let it = HexRangeIterator {
            q_next: -range + 1,
            q_end: range,
            q_exhausted: false,
            r_next: 0,
            r_end: range,
            r_exhausted: false,
            current_q: -range,
            size: range,
        };
        proof {
            if range >= 0 {
                assert(row_lo(-range as int, range as int) == 0);
                assert(row_hi(-range as int, range as int) == range);
            } else {
                assert(row_from(-range as int, 0, range as int) =~= Seq::empty());
                assert(hex_range(range as int) =~= Seq::empty());
            }
            if -range + 1 > range {
                assert(rows_from(-range + 1, range as int, range as int) =~= Seq::empty());
            }
        }
        it
    }

    /// The next coordinate of the walk, or `None` once every one was given.
    #[verifier::spinoff_prover]
    #[verifier::rlimit(30)]
    pub fn next(&mut self) -> (c: Option<TileCoord>)
        requires
            old(self).wf(),
        ensures
            final(self).wf(),
            old(self).remaining().len() == 0 ==> c is None && final(self).remaining().len() == 0,
            old(self).remaining().len() > 0 ==> c is Some && c->0@ == old(self).remaining()[0]
                && final(self).remaining() == old(self).remaining().drop_first(),
    {
        let ghost old_rem = self.remaining();
        let ghost (qa0, qb0) = range_rest(self.q_next as int, self.q_end as int, self.q_exhausted);
        let ghost (ra0, rb0) = range_rest(self.r_next as int, self.r_end as int, self.r_exhausted);
        let cq = self.current_q;
        match step_range(&mut self.r_next, self.r_end, &mut self.r_exhausted) {
            Some(r) => {
                proof {
                    lemma_row_nonempty(cq as int, self.size as int);
                    let rest = row_from(cq as int, ra0 + 1, rb0);
                    let rows = rows_from(qa0, qb0, self.size as int);
                    assert(row_from(cq as int, ra0, rb0) == seq![cube_of(cq as int, ra0)] + rest);
                    if ra0 + 1 > rb0 {
                        assert(rest =~= Seq::empty());
                    }
                    assert(self.remaining() =~= rest + rows);
                    assert(old_rem =~= seq![cube_of(cq as int, ra0)] + (rest + rows));
                    assert(old_rem.drop_first() =~= rest + rows);
                }
                Some(TileCoord::new(cq, r))
            },
            None => {
                match step_range(&mut self.q_next, self.q_end, &mut self.q_exhausted) {
                    Some(q) => {
                        self.current_q = q;
                        let lo = if -self.size >= -q - self.size { -self.size } else { -q - self.size };
                        let hi = if self.size <= -q + self.size { self.size } else { -q + self.size };
                        self.r_next = lo;
                        self.r_end = hi;
                        self.r_exhausted = false;
                        proof {
                            lemma_row_nonempty(q as int, self.size as int);
                            assert(row_from(cq as int, ra0, rb0) =~= Seq::empty());
                        }
                        match step_range(&mut self.r_next, self.r_end, &mut self.r_exhausted) {
                            Some(r) => {
                                proof {
                                    let lo = lo as int;
                                    let hi = hi as int;
                                    let rest = row_from(q as int, lo + 1, hi);
                                    let rows = rows_from(q + 1, qb0, self.size as int);
                                    assert(row_from(q as int, lo, hi) == seq![cube_of(q as int, lo)] + rest);
                                    if lo + 1 > hi {
                                        assert(rest =~= Seq::empty());
                                    }
                                    let (qa1, qb1) = range_rest(self.q_next as int, self.q_end as int, self.q_exhausted);
                                    if qa1 > qb1 {
                                        assert(rows =~= Seq::empty());
                                        assert(rows_from(qa1, qb1, self.size as int) =~= Seq::empty());
                                    }
                                    assert(self.remaining() =~= rest + rows);
                                    assert(old_rem =~= seq![cube_of(q as int, lo)] + (rest + rows));
                                    assert(old_rem.drop_first() =~= rest + rows);
                                }
                                Some(TileCoord::new(q, r))
                            },
                            None => None,
                        }
                    },
                    None => {
                        proof {
                            assert(row_from(cq as int, ra0, rb0) =~= Seq::empty());
                            assert(rows_from(qa0, qb0, self.size as int) =~= Seq::empty());
                            assert(old_rem =~= Seq::empty());
                        }
                        None
                    },
                }
            },
        }
    }
}

/// The r range of every column that lies within `size` steps of the origin
/// is not empty.
proof fn lemma_row_nonempty(q: int, size: int)
    requires
        0 <= size,
        -size <= q <= size,
    ensures
        row_lo(q, size) <= row_hi(q, size),
        -size <= row_lo(q, size),
        row_hi(q, size) <= size,
{
}

/// The length and the entries of a column.
proof fn lemma_row_from(q: int, lo: int, hi: int)
    ensures
        row_from(q, lo, hi).len() == if lo > hi { 0 } else { hi - lo + 1 },
        forall|i: int| 0 <= i < row_from(q, lo, hi).len() ==> #[trigger] row_from(q, lo, hi)[i] == cube_of(q, lo + i),
    decreases hi - lo + 1,
{
    if lo <= hi {
        lemma_row_from(q, lo + 1, hi);
        let rest = row_from(q, lo + 1, hi);
        assert forall|i: int| 0 <= i < row_from(q, lo, hi).len() implies #[trigger] row_from(q, lo, hi)[i] == cube_of(q, lo + i) by {
            if i > 0 {
                assert(row_from(q, lo, hi)[i] == rest[i - 1]);
            }
        }
    }
}

/// Every entry of the columns `qa..=qb` lies in its column's r range.
proof fn lemma_rows_from_bounded(qa: int, qb: int, size: int)
    requires
        0 <= size,
        -size <= qa,
        qb <= size,
    ensures
        forall|i: int| 0 <= i < rows_from(qa, qb, size).len() ==> {
            let e = #[trigger] rows_from(qa, qb, size)[i];
            &&& qa <= e.0 <= qb
            &&& row_lo(e.0, size) <= e.1 <= row_hi(e.0, size)
            &&& e == cube_of(e.0, e.1)
        },
    decreases qb - qa + 1,
{
    if qa <= qb {
        lemma_rows_from_bounded(qa + 1, qb, size);
        let row = row_from(qa, row_lo(qa, size), row_hi(qa, size));
        let rest = rows_from(qa + 1, qb, size);
        lemma_row_from(qa, row_lo(qa, size), row_hi(qa, size));
        assert forall|i: int| 0 <= i < rows_from(qa, qb, size).len() implies {
            let e = #[trigger] rows_from(qa, qb, size)[i];
            &&& qa <= e.0 <= qb
            &&& row_lo(e.0, size) <= e.1 <= row_hi(e.0, size)
            &&& e == cube_of(e.0, e.1)
        } by {
            if i < row.len() {
                assert(rows_from(qa, qb, size)[i] == row[i]);
            } else {
                assert(rows_from(qa, qb, size)[i] == rest[i - row.len()]);
            }
        }
    }
}

/// Every coordinate of the hexagonal range of radius `n` has components of
/// absolute value at most `n`.
pub proof fn lemma_hex_range_bounded(n: int)
    requires
        0 <= n,
    ensures
        forall|i: int| 0 <= i < hex_range(n).len() ==> small(#[trigger] hex_range(n)[i], n),
{
    lemma_rows_from_bounded(-n, n, n);
    assert forall|i: int| 0 <= i < hex_range(n).len() implies small(#[trigger] hex_range(n)[i], n) by {
        let e = hex_range(n)[i];
        assert(rows_from(-n, n, n)[i] == e);
    }
}

/// Every coordinate of a column within the columns' range, with r within
/// the column's range, is listed.
proof fn lemma_rows_from_contains(qa: int, qb: int, size: int, q: int, r: int)
    requires
        qa <= q <= qb,
        row_lo(q, size) <= r <= row_hi(q, size),
    ensures
        rows_from(qa, qb, size).contains(cube_of(q, r)),
    decreases qb - qa + 1,
{
    let row = row_from(qa, row_lo(qa, size), row_hi(qa, size));
    let rest = rows_from(qa + 1, qb, size);
    assert(rows_from(qa, qb, size) == row + rest);
    if q == qa {
        lemma_row_from(qa, row_lo(qa, size), row_hi(qa, size));
        let i = r - row_lo(qa, size);
        assert(row[i] == cube_of(q, r));
        assert((row + rest)[i] == cube_of(q, r));
    } else {
        lemma_rows_from_contains(qa + 1, qb, size, q, r);
        let i = choose|i: int| 0 <= i < rest.len() && rest[i] == cube_of(q, r);
        assert((row + rest)[row.len() + i] == cube_of(q, r));
    }
}

/// The columns are listed in increasing order of q, and each column in
/// increasing order of r.
proof fn lemma_rows_from_sorted(qa: int, qb: int, size: int)
    ensures
        forall|i: int, j: int| 0 <= i < j < rows_from(qa, qb, size).len() ==> {
            let a = #[trigger] rows_from(qa, qb, size)[i];
            let b = #[trigger] rows_from(qa, qb, size)[j];
            a.0 < b.0 || (a.0 == b.0 && a.1 < b.1)
        },
        forall|i: int| 0 <= i < rows_from(qa, qb, size).len() ==> qa <= (#[trigger] rows_from(qa, qb, size)[i]).0,
    decreases qb - qa + 1,
{
    if qa <= qb {
        lemma_rows_from_sorted(qa + 1, qb, size);
        let row = row_from(qa, row_lo(qa, size), row_hi(qa, size));
        let rest = rows_from(qa + 1, qb, size);
        lemma_row_from(qa, row_lo(qa, size), row_hi(qa, size));
        let all = rows_from(qa, qb, size);
        assert(all == row + rest);
        assert forall|i: int| 0 <= i < all.len() implies qa <= (#[trigger] all[i]).0 by {
            if i >= row.len() {
                assert(all[i] == rest[i - row.len()]);
            }
        }
        assert forall|i: int, j: int| 0 <= i < j < all.len() implies {
            let a = #[trigger] all[i];
            let b = #[trigger] all[j];
            a.0 < b.0 || (a.0 == b.0 && a.1 < b.1)
        } by {
            if j < row.len() {
                assert(all[i] == row[i] && all[j] == row[j]);
            } else if i < row.len() {
                assert(all[i] == row[i] && all[j] == rest[j - row.len()]);
                assert(qa + 1 <= rest[j - row.len()].0);
            } else {
                assert(all[i] == rest[i - row.len()] && all[j] == rest[j - row.len()]);
            }
        }
    }
}

/// The hexagonal range of radius `n` lists exactly the coordinates within
/// `n` steps of the origin, each once.
pub proof fn law_hex_range_is_the_hexagon(n: int)
    requires
        0 <= n,
    ensures
        forall|q: int, r: int| #[trigger] hex_range(n).contains(cube_of(q, r)) <==> cube_length(cube_of(q, r)) <= n,
        forall|i: int| 0 <= i < hex_range(n).len() ==> #[trigger] hex_range(n)[i] == cube_of(hex_range(n)[i].0, hex_range(n)[i].1),
        hex_range(n).no_duplicates(),
{
    lemma_rows_from_bounded(-n, n, n);
    lemma_rows_from_sorted(-n, n, n);
    let h = hex_range(n);
    assert forall|i: int| 0 <= i < h.len() implies #[trigger] h[i] == cube_of(h[i].0, h[i].1) by {
        assert(rows_from(-n, n, n)[i] == h[i]);
    }
    assert forall|q: int, r: int| #[trigger] h.contains(cube_of(q, r)) <==> cube_length(cube_of(q, r)) <= n by {
        crate::math::hex::cube::law_cube_length_is_max(q, r);
        if h.contains(cube_of(q, r)) {
            let i = choose|i: int| 0 <= i < h.len() && h[i] == cube_of(q, r);
            assert(rows_from(-n, n, n)[i] == h[i]);
        }
        if cube_length(cube_of(q, r)) <= n {
            lemma_rows_from_contains(-n, n, n, q, r);
        }
    }
    assert forall|i: int, j: int| 0 <= i < h.len() && 0 <= j < h.len() && i != j implies h[i] != h[j] by {
        if i < j {
            assert(rows_from(-n, n, n)[i] == h[i] && rows_from(-n, n, n)[j] == h[j]);
        } else {
            assert(rows_from(-n, n, n)[i] == h[i] && rows_from(-n, n, n)[j] == h[j]);
        }
    }
}

/// The six neighbors are one step away and the six diagonals two steps, all
/// in different directions.
pub proof fn law_neighbors_and_diagonals(i: int, j: int)
    requires
        0 <= i < 6,
        0 <= j < 6,
    ensures
        cube_length(neighbor_vector(i)) == 1,
        cube_length(diagonal_vector(i)) == 2,
        i != j ==> neighbor_vector(i) != neighbor_vector(j),
        i != j ==> diagonal_vector(i) != diagonal_vector(j),
{
}

} // verus!
