use girg_generator::params::{GenerationParameters, ParamError, SeedEnum};
use girg_generator::random::generate_seeds;
use girg_generator::tiles::Tile;

fn params_with(
    dims: usize,
    v: u64,
    tile_size: u64,
    shard_index: usize,
    shard_count: usize,
) -> GenerationParameters {
    let seeds: Vec<u64> = (0..dims as u64 + 2).map(|k| 1000 + k).collect();
    GenerationParameters::from_seeds(
        dims, v, seeds, tile_size, 1024, true, 0, shard_index, shard_count,
    )
    .unwrap()
}

#[test]
fn from_seeds_accepts_a_valid_configuration() {
    let p = params_with(2, 10_000, 1000, 0, 1);
    assert_eq!(p.num_dimensions(), 2);
    assert_eq!(p.v, 10_000);
    assert_eq!(p.tile_size, 1000);
}

#[test]
fn from_seeds_rejects_zero_dimensions() {
    let r = GenerationParameters::from_seeds(0, 10, vec![1, 2], 5, 16, true, 0, 0, 1);
    assert_eq!(r.unwrap_err(), ParamError::ZeroDimensions);
}

#[test]
fn from_seeds_rejects_zero_vertices() {
    let r = GenerationParameters::from_seeds(1, 0, vec![1, 2, 3], 5, 16, true, 0, 0, 1);
    assert_eq!(r.unwrap_err(), ParamError::ZeroVertices);
}

#[test]
fn from_seeds_rejects_zero_tile_size() {
    let r = GenerationParameters::from_seeds(1, 10, vec![1, 2, 3], 0, 16, true, 0, 0, 1);
    assert_eq!(r.unwrap_err(), ParamError::ZeroTileSize);
}

#[test]
fn from_seeds_rejects_zero_edge_buffer() {
    let r = GenerationParameters::from_seeds(1, 10, vec![1, 2, 3], 5, 0, true, 0, 0, 1);
    assert_eq!(r.unwrap_err(), ParamError::ZeroEdgeBuffer);
}

#[test]
fn from_seeds_rejects_shard_index_out_of_range() {
    let r = GenerationParameters::from_seeds(1, 10, vec![1, 2, 3], 5, 16, true, 0, 4, 4);
    assert_eq!(r.unwrap_err(), ParamError::ShardIndexOutOfRange);
}

#[test]
fn from_seeds_rejects_wrong_seed_count() {
    // two dimensions need four seeds
    let r = GenerationParameters::from_seeds(2, 10, vec![1, 2, 3], 5, 16, true, 0, 0, 1);
    assert_eq!(r.unwrap_err(), ParamError::WrongSeedCount);
}

#[test]
fn get_seed_reads_the_seed_vector() {
    let p = GenerationParameters::from_seeds(
        2,
        10,
        vec![11, 22, 33, 44],
        5,
        16,
        true,
        0,
        0,
        1,
    )
    .unwrap();
    assert_eq!(p.get_seed(SeedEnum::Weight), 11);
    assert_eq!(p.get_seed(SeedEnum::Edge), 22);
    assert_eq!(p.get_seed(SeedEnum::Dimension(0)), 33);
    assert_eq!(p.get_seed(SeedEnum::Dimension(1)), 44);
}

#[test]
fn replace_seeds_keeps_every_other_field() {
    let p = params_with(2, 10_000, 1000, 0, 1);
    let q = p.clone().replace_seeds(vec![9, 8, 7, 6]);
    assert_eq!(q.seeds, vec![9, 8, 7, 6]);
    assert_eq!(q.v, p.v);
    assert_eq!(q.tile_size, p.tile_size);
    assert_eq!(q.shard_count, p.shard_count);
}

#[test]
fn num_tiles_is_the_squared_side_count() {
    // ⌈10000 / 1000⌉² = 100
    let p = params_with(2, 10_000, 1000, 0, 1);
    assert_eq!(p.num_tiles(), 100);
    // ⌈9999 / 1000⌉² = 100 as well: the last tile row is ragged
    let p = params_with(2, 9999, 1000, 0, 1);
    assert_eq!(p.num_tiles(), 100);
    // ⌈10 / 4⌉² = 9
    let p = params_with(2, 10, 4, 0, 1);
    assert_eq!(p.num_tiles(), 9);
    // with four shards each process sees a quarter of 256 tiles
    let p = params_with(2, 1024, 64, 0, 4);
    assert_eq!(p.num_tiles(), 64);
}

#[test]
fn shard_tiles_concatenate_to_the_full_enumeration() {
    let v = 1024u64;
    let tile_size = 128u64;
    let shard_count = 4usize;
    let full: Vec<Tile> = {
        let p = params_with(2, v, tile_size, 0, 1);
        let mut it = p.tiles();
        let mut out = Vec::new();
        while let Some(t) = it.next() {
            out.push(t);
        }
        out
    };
    let mut merged: Vec<Option<Tile>> = vec![None; full.len()];
    let mut total = 0usize;
    for shard_index in 0..shard_count {
        let p = params_with(2, v, tile_size, shard_index, shard_count);
        let mut it = p.tiles();
        let mut m = 0usize;
        while let Some(t) = it.next() {
            let n = shard_index + m * shard_count;
            assert!(merged[n].is_none(), "tile assigned to two shards");
            merged[n] = Some(t);
            m += 1;
            total += 1;
        }
    }
    assert_eq!(total, full.len());
    for (n, t) in full.iter().enumerate() {
        assert_eq!(merged[n], Some(*t));
    }
}

#[test]
fn pos_to_tile_finds_the_containing_tile() {
    let p = params_with(2, 10, 4, 0, 1);
    // the cell (9, 9) lies in the clipped last tile
    let t = p.pos_to_tile(9, 9);
    assert_eq!((t.start_x, t.start_y, t.end_x, t.end_y), (8, 8, 9, 9));
    // the cell (3, 5) lies in the first column, second row of tiles
    let t = p.pos_to_tile(3, 5);
    assert_eq!((t.start_x, t.start_y, t.end_x, t.end_y), (0, 4, 3, 7));
}

#[test]
fn generated_seeds_are_distinct() {
    for n in [0usize, 1, 4, 64] {
        let seeds = generate_seeds(n);
        assert_eq!(seeds.len(), n);
        for a in 0..n {
            for b in (a + 1)..n {
                assert_ne!(seeds[a], seeds[b]);
            }
        }
    }
}

#[test]
fn new_draws_distinct_seeds_of_the_right_length() {
    let p = GenerationParameters::new(3, 100, 10, 16, true, 0, 0, 1).unwrap();
    assert_eq!(p.seeds.len(), 5);
    for a in 0..p.seeds.len() {
        for b in (a + 1)..p.seeds.len() {
            assert_ne!(p.seeds[a], p.seeds[b]);
        }
    }
}

#[test]
fn it_works() {
    let result = 2 + 2;
    assert_eq!(result, 4);
}
