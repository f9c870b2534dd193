use girg_generator::murmur3::{murmur3_32_2, murmur3_32_3};
use girg_generator::params::{GenerationParameters, SeedEnum};
use girg_generator::state::CPUThreadState;
use girg_generator::tiles::Tile;
use girg_generator::worker::worker_function;

// The floating-point probability kernel, as the generator evaluates it.

fn random_property(i: u64, seed: u64) -> f32 {
    let h = murmur3_32_2(i, seed) as f64;
    (h / (u32::MAX as f64)) as f32
}

fn random_edge(i: u64, j: u64, seed: u64) -> f32 {
    let h = murmur3_32_3(i, j, seed) as f64;
    (h / (u32::MAX as f64)) as f32
}

fn uniform_to_pareto(u: f32, x_min: f32, beta: f32) -> f32 {
    x_min / (1.0f32 - u).powf(1.0f32 / beta)
}

fn compute_distance(p_i: &[f32], p_j: &[f32]) -> f32 {
    fn dist_c(i: f32, j: f32) -> f32 {
        (i - j).abs().min(1.0f32 - (i - j).abs())
    }
    p_i.iter()
        .zip(p_j.iter())
        .map(|(a, b)| dist_c(*a, *b))
        .fold(f32::MIN, f32::max)
}

struct FloatParams {
    base: GenerationParameters,
    alpha: f32,
    w: f32,
    weights: Vec<f32>,
    positions: Vec<Vec<f32>>,
}

impl FloatParams {
    fn new(base: GenerationParameters, alpha: f32, x_min: f32, beta: f32) -> Self {
        let weight_seed = base.get_seed(SeedEnum::Weight);
        let dims = base.num_dimensions();
        let weights: Vec<f32> = (0..base.v)
            .map(|j| uniform_to_pareto(random_property(j, weight_seed), x_min, beta))
            .collect();
        let w: f32 = weights.iter().sum();
        let positions: Vec<Vec<f32>> = (0..base.v)
            .map(|j| {
                (0..dims)
                    .map(|d| random_property(j, base.get_seed(SeedEnum::Dimension(d))))
                    .collect()
            })
            .collect();
        FloatParams { base, alpha, w, weights, positions }
    }

    fn compute_probability(&self, d: f32, w_i: f32, w_j: f32) -> f32 {
        let dims = self.base.num_dimensions() as f32;
        if self.alpha.is_infinite() {
            let threshold = ((w_i * w_j) / self.w).powf(1.0f32 / dims);
            if d <= threshold {
                1.0f32
            } else {
                0.0f32
            }
        } else {
            (((w_i * w_j) / self.w).powf(self.alpha) / d.powf(self.alpha * dims)).min(1.0f32)
        }
    }

    fn generate_edge(&self, i: u64, j: u64) -> bool {
        let d = compute_distance(&self.positions[i as usize], &self.positions[j as usize]);
        let p = self.compute_probability(d, self.weights[i as usize], self.weights[j as usize]);
        let rp = random_edge(i, j, self.base.get_seed(SeedEnum::Edge));
        p > rp
    }

    fn tile_accepts(&self, t: Tile) -> Vec<bool> {
        let mut it = t.into_iter();
        let mut accepts = Vec::new();
        while let Some((i, j)) = it.next() {
            accepts.push(self.generate_edge(i, j));
        }
        accepts
    }
}

fn run_direct(fp: &FloatParams) -> Vec<(u64, u64)> {
    let mut edges = Vec::new();
    let mut tiles = fp.base.tiles();
    while let Some(t) = tiles.next() {
        let accepts = fp.tile_accepts(t);
        edges.extend(worker_function(t, &accepts));
    }
    edges
}

fn run_resumable(fp: &FloatParams, edges_size: u64, num_threads: u64) -> Vec<(u64, u64)> {
    let mut state = CPUThreadState::new(edges_size, num_threads);
    let mut edges = Vec::new();
    let mut tiles = fp.base.tiles();
    let mut n = 0u64;
    while let Some(t) = tiles.next() {
        let tid = (n % num_threads) as usize;
        let accepts = fp.tile_accepts(t);
        edges.extend(state.run_tile_to_completion(tid, t, &accepts));
        n += 1;
    }
    edges
}

fn sorted(mut edges: Vec<(u64, u64)>) -> Vec<(u64, u64)> {
    edges.sort_unstable();
    edges
}

fn scenario(v: u64, tile_size: u64, seeds: Vec<u64>, alpha: f32, x_min: f32, beta: f32) -> FloatParams {
    let base = GenerationParameters::from_seeds(2, v, seeds, tile_size, 1024, true, 0, 0, 1)
        .unwrap();
    FloatParams::new(base, alpha, x_min, beta)
}

#[test]
fn backends_agree_on_seeded_runs() {
    for (alpha, x_min, beta, seeds) in [
        (
            1.1f32,
            1.0f32,
            2.5f32,
            vec![
                3702171088734132669u64,
                7758113088146926290,
                9158248949434531752,
                12627271752717934084,
            ],
        ),
        (
            1.5,
            2.5,
            1.1,
            vec![
                17347240448019473911,
                6482979354306528467,
                6393418829833712867,
                1917765620565624317,
            ],
        ),
        (
            1.0,
            2.5,
            2.5,
            vec![
                641528916818287623,
                14583863194921507506,
                2172636905578962766,
                9292436636520362153,
            ],
        ),
        (
            1.0,
            1.0,
            1.0,
            vec![
                9943627937936294394,
                17623916284063759097,
                9773449833268882578,
                13586026909810947487,
            ],
        ),
    ] {
        let fp = scenario(500, 97, seeds, alpha, x_min, beta);
        let direct = sorted(run_direct(&fp));
        let resumable = sorted(run_resumable(&fp, 16, 3));
        assert_eq!(direct, resumable);
        assert!(!direct.is_empty());
    }
}

#[test]
fn two_runs_of_one_backend_are_identical() {
    let seeds = vec![
        17347240448019473911u64,
        6482979354306528467,
        6393418829833712867,
        1917765620565624317,
    ];
    let fp = scenario(400, 64, seeds, 1.5, 2.5, 1.1);
    let first = run_direct(&fp);
    let second = run_direct(&fp);
    assert_eq!(first, second);
    let third = run_resumable(&fp, 8, 2);
    let fourth = run_resumable(&fp, 8, 2);
    assert_eq!(third, fourth);
}

#[test]
fn shard_outputs_union_to_the_single_shard_output() {
    let seeds = vec![
        3702171088734132669u64,
        7758113088146926290,
        9158248949434531752,
        12627271752717934084,
    ];
    let whole = {
        let fp = scenario(256, 32, seeds.clone(), 1.2, 1.0, 1.5);
        sorted(run_direct(&fp))
    };
    let shard_count = 4usize;
    let mut merged = Vec::new();
    for shard_index in 0..shard_count {
        let base = GenerationParameters::from_seeds(
            2,
            256,
            seeds.clone(),
            32,
            1024,
            true,
            0,
            shard_index,
            shard_count,
        )
        .unwrap();
        let fp = FloatParams::new(base, 1.2, 1.0, 1.5);
        merged.extend(run_direct(&fp));
    }
    assert_eq!(sorted(merged), whole);
}

#[test]
fn emitted_edges_name_vertices_of_the_graph() {
    let seeds = vec![101u64, 202, 303, 404];
    let fp = scenario(300, 49, seeds, 1.5, 1.0, 1.5);
    let v = fp.base.v;
    for (i, j) in run_direct(&fp) {
        assert!(i < v && j < v);
    }
}

#[test]
fn infinite_alpha_accepts_only_within_the_threshold() {
    let seeds = vec![11u64, 22, 33, 44];
    let fp = scenario(300, 60, seeds, f32::INFINITY, 1.0, 1.5);
    let edges = run_direct(&fp);
    assert!(!edges.is_empty());
    for (i, j) in edges {
        let d = compute_distance(&fp.positions[i as usize], &fp.positions[j as usize]);
        let threshold = ((fp.weights[i as usize] * fp.weights[j as usize]) / fp.w)
            .powf(1.0f32 / 2.0f32);
        assert!(d <= threshold, "edge ({}, {}) lies beyond the threshold", i, j);
    }
}

#[test]
fn heavy_weights_make_every_pair_certain() {
    // with α = ∞ and w_i · w_j / W >= 1 the threshold reaches across
    // the whole torus, so every pair has probability one
    let seeds = vec![5u64, 6, 7, 8];
    let fp = scenario(20, 8, seeds, f32::INFINITY, 1000.0, 3.0);
    for i in 0..20u64 {
        for j in 0..20u64 {
            let wi = fp.weights[i as usize];
            let wj = fp.weights[j as usize];
            assert!(wi * wj / fp.w >= 1.0);
            let d = compute_distance(&fp.positions[i as usize], &fp.positions[j as usize]);
            assert_eq!(fp.compute_probability(d, wi, wj), 1.0);
        }
    }
}

#[test]
fn toroidal_distance_is_a_bounded_metric() {
    let seeds = vec![91u64, 92, 93, 94];
    let base = GenerationParameters::from_seeds(2, 64, seeds, 16, 16, true, 0, 0, 1).unwrap();
    let fp = FloatParams::new(base, 1.5, 1.0, 1.5);
    for i in 0..64usize {
        let d_self = compute_distance(&fp.positions[i], &fp.positions[i]);
        assert_eq!(d_self, 0.0);
        for j in 0..64usize {
            let d_ij = compute_distance(&fp.positions[i], &fp.positions[j]);
            let d_ji = compute_distance(&fp.positions[j], &fp.positions[i]);
            assert_eq!(d_ij, d_ji);
            assert!((0.0..=0.5).contains(&d_ij));
        }
    }
}

#[test]
fn degree_counters_match_the_edge_stream() {
    let seeds = vec![41u64, 42, 43, 44];
    let fp = scenario(128, 32, seeds, 1.5, 1.0, 1.5);
    let edges = run_direct(&fp);
    let mut counters = vec![0u64; 128];
    girg_generator::stats::accumulate_degrees(&mut counters, &edges);
    let mut expected = vec![0u64; 128];
    for (i, _) in edges.iter() {
        expected[*i as usize] += 1;
    }
    assert_eq!(counters, expected);
}

#[test]
fn single_vertex_graph_has_at_most_the_self_loop() {
    let seeds = vec![71u64, 72, 73, 74];
    let fp = scenario(1, 1000, seeds, 1.5, 1.0, 1.5);
    let edges = run_direct(&fp);
    assert!(edges.len() <= 1);
    for e in edges {
        assert_eq!(e, (0, 0));
    }
}
