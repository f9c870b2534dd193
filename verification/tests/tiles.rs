use girg_generator::blocks::BlocksIterator;
use girg_generator::tiles::{Tile, TileIterator, TilesIterator};

fn div_ceil(a: u64, b: u64) -> u64 {
    (a + b - 1) / b
}

fn all_tiles(vertices: u64, tile_size: u64) -> Vec<Tile> {
    let mut it = TilesIterator::new(vertices, tile_size);
    let mut out = Vec::new();
    while let Some(t) = it.next() {
        out.push(t);
    }
    out
}

fn tile_cells(t: Tile) -> Vec<(u64, u64)> {
    let mut it = t.into_iter();
    let mut out = Vec::new();
    while let Some(c) = it.next() {
        out.push(c);
    }
    out
}

#[test]
fn tiles_count_and_bounds() {
    for (vertices, tile_size) in [
        (100u64, 20u64),
        (100, 30),
        (100, 19),
        (100, 21),
        (99, 20),
        (99, 21),
    ] {
        let exp = div_ceil(vertices, tile_size).pow(2);
        let tiles = all_tiles(vertices, tile_size);
        assert_eq!(tiles.len() as u64, exp, "testing amount of tiles");

        let sum_positions: usize = tiles.iter().map(|t| tile_cells(*t).len()).sum();
        assert_eq!(sum_positions as u64, vertices * vertices);

        let max_x = tiles.iter().map(|t| t.end_x).max().unwrap();
        assert_eq!(max_x, vertices - 1, "testing max_x");

        let max_y = tiles.iter().map(|t| t.end_y).max().unwrap();
        assert_eq!(max_y, vertices - 1, "testing max_y");

        for t in tiles.iter() {
            assert!(t.start_x <= t.end_x && t.end_x < vertices);
            assert!(t.start_y <= t.end_y && t.end_y < vertices);
            assert!(t.end_x - t.start_x + 1 <= tile_size);
            assert!(t.end_y - t.start_y + 1 <= tile_size);
        }
    }
}

#[test]
fn tiles_cover_every_cell_once() {
    let vertices = 23u64;
    let tile_size = 5u64;
    let mut seen = vec![0u32; (vertices * vertices) as usize];
    for t in all_tiles(vertices, tile_size) {
        for (i, j) in tile_cells(t) {
            assert!(i < vertices && j < vertices);
            seen[(j * vertices + i) as usize] += 1;
        }
    }
    assert!(seen.iter().all(|&c| c == 1));
}

#[test]
fn blocks_count_and_bounds() {
    for (vertices, block_size) in [
        (100u64, 20u64),
        (100, 30),
        (100, 19),
        (100, 21),
        (99, 20),
        (99, 21),
    ] {
        let exp = div_ceil(vertices, block_size).pow(2);
        let mut it = BlocksIterator::new(vertices, block_size);
        let mut blocks = Vec::new();
        while let Some(b) = it.next() {
            blocks.push(b);
        }
        assert_eq!(blocks.len() as u64, exp, "testing amount of blocks");

        let max_x = blocks.iter().map(|((_, _), (x, _))| *x).max().unwrap();
        assert_eq!(max_x, vertices, "testing max_x");

        let max_y = blocks.iter().map(|((_, _), (_, y))| *y).max().unwrap();
        assert_eq!(max_y, vertices, "testing max_y");
    }
}

#[test]
fn one_vertex_gives_one_tile_with_one_cell() {
    let tiles = all_tiles(1, 1000);
    assert_eq!(tiles.len(), 1);
    let t = tiles[0];
    assert_eq!((t.start_x, t.start_y, t.end_x, t.end_y), (0, 0, 0, 0));
    assert_eq!(tile_cells(t), vec![(0, 0)]);
}

#[test]
fn oversized_tile_covers_whole_matrix() {
    let tiles = all_tiles(7, 100);
    assert_eq!(tiles.len(), 1);
    let t = tiles[0];
    assert_eq!((t.start_x, t.start_y, t.end_x, t.end_y), (0, 0, 6, 6));
    assert_eq!(tile_cells(t).len(), 49);
}

#[test]
fn ragged_last_row_and_column_are_smaller_but_closed() {
    // 10 is not divisible by 4: the last row and column of tiles is
    // clipped to 2 cells but still covers the matrix edge
    let tiles = all_tiles(10, 4);
    assert_eq!(tiles.len(), 9);
    let last = tiles[8];
    assert_eq!((last.start_x, last.start_y, last.end_x, last.end_y), (8, 8, 9, 9));
    assert_eq!(tile_cells(last).len(), 4);
    let total: usize = tiles.iter().map(|t| tile_cells(*t).len()).sum();
    assert_eq!(total, 100);
}

#[test]
fn tile_cells_walk_row_major() {
    let t = Tile { start_x: 2, start_y: 5, end_x: 4, end_y: 6 };
    assert_eq!(
        tile_cells(t),
        vec![(2, 5), (3, 5), (4, 5), (2, 6), (3, 6), (4, 6)]
    );
}

#[test]
fn skip_to_resumes_mid_tile() {
    let t = Tile { start_x: 0, start_y: 0, end_x: 2, end_y: 1 };
    let mut it: TileIterator = t.into_iter();
    let resumed = it.skip_to(1, 1);
    let mut out = Vec::new();
    let mut r = resumed;
    while let Some(c) = r.next() {
        out.push(c);
    }
    assert_eq!(out, vec![(1, 1), (2, 1)]);
}
