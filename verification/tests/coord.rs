use automancy::game::tile::coord::{ChunkCoord, HexRangeIterator, TileCoord, CHUNK_SIZE, CHUNK_SIZE_SQUARED};

fn qr(c: TileCoord) -> (i32, i32) {
    (c.q(), c.r())
}

#[test]
fn tile_coord_components() {
    let c = TileCoord::new(3, -5);
    assert_eq!((c.q(), c.r(), c.s()), (3, -5, 2));
    assert_eq!(qr(TileCoord::zero()), (0, 0));
}

#[test]
fn tile_coord_arithmetic() {
    let a = TileCoord::new(3, -5);
    let b = TileCoord::new(-1, 2);
    assert_eq!(qr(a.add(b)), (2, -3));
    assert_eq!(qr(a.sub(b)), (4, -7));
    assert_eq!(qr(a.mul(3)), (9, -15));
    assert_eq!(qr(a.div(2)), (1, -2));
    assert_eq!(qr(a.neg()), (-3, 5));
}

#[test]
fn tile_coord_distance() {
    let a = TileCoord::new(3, -5);
    let b = TileCoord::new(-1, 2);
    assert_eq!(a.distance(b), 7);
    assert_eq!(b.distance(a), 7);
    assert_eq!(a.distance(a), 0);
}

#[test]
fn tile_coord_direction_constants() {
    assert_eq!(qr(TileCoord::left()), (1, 0));
    assert_eq!(qr(TileCoord::top_left()), (1, -1));
    assert_eq!(qr(TileCoord::top_right()), (0, -1));
    assert_eq!(qr(TileCoord::right()), (-1, 0));
    assert_eq!(qr(TileCoord::bottom_right()), (-1, 1));
    assert_eq!(qr(TileCoord::bottom_left()), (0, 1));
    assert_eq!(qr(TileCoord::diag_top_right()), (2, -1));
    assert_eq!(qr(TileCoord::diag_top()), (1, -2));
    assert_eq!(qr(TileCoord::diag_top_left()), (-1, -1));
    assert_eq!(qr(TileCoord::diag_bottom_left()), (-2, 1));
    assert_eq!(qr(TileCoord::diag_bottom()), (-1, 2));
    assert_eq!(qr(TileCoord::diag_bottom_right()), (1, 1));
    assert_eq!(qr(TileCoord::neighbor(4)), (-1, 1));
}

#[test]
fn tile_coord_neighbors_in_order() {
    let c = TileCoord::new(10, -4);
    let ns: Vec<(i32, i32)> = c.neighbors().iter().map(|n| qr(*n)).collect();
    assert_eq!(ns, vec![(10, -5), (9, -4), (9, -3), (10, -3), (11, -4), (11, -5)]);
    for n in c.neighbors() {
        assert_eq!(c.distance(n), 1);
    }
}

#[test]
fn tile_coord_diagonals_in_order() {
    let c = TileCoord::new(10, -4);
    let ds: Vec<(i32, i32)> = c.diagonals().iter().map(|n| qr(*n)).collect();
    assert_eq!(ds, vec![(11, -6), (12, -5), (11, -3), (9, -2), (8, -3), (9, -5)]);
    for d in c.diagonals() {
        assert_eq!(c.distance(d), 2);
    }
}

#[test]
fn tile_coord_strings() {
    let c = TileCoord::new(3, -45);
    assert_eq!(c.to_minimal_string(), "3,-45");
    assert_eq!(c.to_string(), "[3, -45]");
    assert_eq!(TileCoord::zero().to_minimal_string(), "0,0");
    assert_eq!(TileCoord::new(-1000, 7).to_string(), "[-1000, 7]");
    assert_eq!(ChunkCoord::new(12, -3).to_minimal_string(), "12,-3");
}

#[test]
fn chunk_constants() {
    assert_eq!(CHUNK_SIZE, 16);
    assert_eq!(CHUNK_SIZE_SQUARED, 256);
}

#[test]
fn chunk_coord_components_and_arithmetic() {
    let k = ChunkCoord::new(2, -1);
    assert_eq!((k.q(), k.r(), k.s()), (2, -1, -1));
    let j = ChunkCoord::new(-1, 3);
    assert_eq!(qr(k.add(j).as_tile_hex()), (1, 2));
    assert_eq!(qr(k.sub(j).as_tile_hex()), (3, -4));
    assert_eq!(qr(k.mul(2).as_tile_hex()), (4, -2));
    assert_eq!(qr(k.div(2).as_tile_hex()), (1, 0));
    assert_eq!(qr(k.neg().as_tile_hex()), (-2, 1));
    let t = TileCoord::new(5, 6);
    assert_eq!(qr(ChunkCoord::from_tile_hex(t).as_tile_hex()), (5, 6));
}

#[test]
fn chunk_neighbors_and_diagonals() {
    let k = ChunkCoord::new(0, 0);
    let ns: Vec<(i32, i32)> = k.neighbors().iter().map(|n| qr(n.as_tile_hex())).collect();
    assert_eq!(ns, vec![(0, -1), (-1, 0), (-1, 1), (0, 1), (1, 0), (1, -1)]);
    let ds: Vec<(i32, i32)> = k.diagonals().iter().map(|n| qr(n.as_tile_hex())).collect();
    assert_eq!(ds, vec![(1, -2), (2, -1), (1, 1), (-1, 2), (-2, 1), (-1, -1)]);
}

#[test]
fn chunk_centers() {
    assert_eq!(qr(ChunkCoord::new(0, 0).center()), (0, 0));
    assert_eq!(qr(ChunkCoord::new(1, 0).center()), (16, 17));
    assert_eq!(qr(ChunkCoord::new(0, 1).center()), (-17, 33));
    assert_eq!(qr(TileCoord::from_chunk(ChunkCoord::new(-1, 2))), (-50, 49));
}

#[test]
fn hex_range_of_one_lists_seven_tiles_in_order() {
    let mut it = HexRangeIterator::new(1);
    let mut got = Vec::new();
    while let Some(c) = it.next() {
        got.push(qr(c));
    }
    assert_eq!(got, vec![(-1, 0), (-1, 1), (0, -1), (0, 0), (0, 1), (1, -1), (1, 0)]);
    assert!(it.next().is_none());
}

#[test]
fn hex_range_of_zero_is_the_origin() {
    let mut it = HexRangeIterator::new(0);
    assert_eq!(it.next().map(qr), Some((0, 0)));
    assert!(it.next().is_none());
}

#[test]
fn hex_range_is_the_hexagon() {
    for n in 0..6 {
        let mut it = HexRangeIterator::new(n);
        let mut got = Vec::new();
        while let Some(c) = it.next() {
            assert!(c.distance(TileCoord::zero()) <= n);
            assert!(!got.contains(&qr(c)));
            got.push(qr(c));
        }
        assert_eq!(got.len() as i32, 3 * n * (n + 1) + 1);
    }
}

#[test]
fn chunk_iter_covers_the_chunk() {
    let k = ChunkCoord::new(1, 0);
    let tiles = k.iter();
    assert_eq!(tiles.len(), 3 * 16 * 17 + 1);
    let center = k.center();
    assert!(tiles.iter().all(|t| t.distance(center) <= 16));
    assert_eq!(qr(tiles[0]), (0, 17));
}

#[test]
fn negative_ranges_walk_nothing() {
    assert!(HexRangeIterator::new(-3).next().is_none());
    assert!(HexRangeIterator::new(i32::MIN + 2).next().is_none());
}

#[test]
fn the_largest_range_starts_at_its_corner() {
    let mut it = HexRangeIterator::new(1 << 30);
    assert_eq!(it.next().map(qr), Some((-(1 << 30), 0)));
    assert_eq!(it.next().map(qr), Some((-(1 << 30), 1)));
}

#[test]
fn neighbors_and_diagonals_reach_the_edge() {
    let m = i32::MAX;
    let c = TileCoord::new(m - 1, -(m - 1));
    for n in c.neighbors() {
        let d = (n.q() as i64 - c.q() as i64, n.r() as i64 - c.r() as i64);
        assert!(d.0.abs() <= 1 && d.1.abs() <= 1);
    }
    let c = TileCoord::new(m - 2, -(m - 2));
    for n in c.diagonals() {
        let d = (n.q() as i64 - c.q() as i64, n.r() as i64 - c.r() as i64);
        assert!(d.0.abs() <= 2 && d.1.abs() <= 2);
    }
}

#[test]
fn far_chunks_have_centers() {
    let k = ChunkCoord::new(2_000_000, 0);
    assert_eq!(qr(k.center()), (32_000_000, 34_000_000));
}
