use girg_generator::params::GenerationParameters;
use girg_generator::stats::{accumulate_degrees, degrees_above};
use girg_generator::tiles::Tile;
use girg_generator::worker::{batch_edges, worker, worker_function, EdgeBuffer};

fn tile_4x3() -> Tile {
    Tile { start_x: 0, start_y: 0, end_x: 3, end_y: 2 }
}

fn checker_accepts(t: Tile) -> Vec<bool> {
    let w = t.end_x - t.start_x + 1;
    let h = t.end_y - t.start_y + 1;
    (0..w * h).map(|k| k % 2 == 0).collect()
}

#[test]
fn worker_function_keeps_accepted_cells_in_order() {
    let t = tile_4x3();
    let accepts = checker_accepts(t);
    let edges = worker_function(t, &accepts);
    assert_eq!(
        edges,
        vec![(0, 0), (2, 0), (0, 1), (2, 1), (0, 2), (2, 2)]
    );
}

#[test]
fn edge_buffer_hands_out_full_batches() {
    let mut buffer = EdgeBuffer::new(2);
    assert_eq!(buffer.push(1, 2), None);
    let batch = buffer.push(3, 4).unwrap();
    assert_eq!(batch, vec![(1, 2), (3, 4)]);
    assert_eq!(buffer.push(5, 6), None);
    let rest = buffer.flush().unwrap();
    assert_eq!(rest, vec![(5, 6)]);
    assert_eq!(buffer.flush(), None);
}

#[test]
fn batching_concatenates_back_to_the_input() {
    let edges: Vec<(u64, u64)> = (0..17).map(|k| (k, k + 1)).collect();
    for capacity in [1u64, 2, 3, 16, 17, 100] {
        let batches = batch_edges(&edges, capacity);
        let flattened: Vec<(u64, u64)> = batches.iter().flatten().copied().collect();
        assert_eq!(flattened, edges, "capacity {}", capacity);
        for (q, b) in batches.iter().enumerate() {
            assert!(!b.is_empty());
            assert!(b.len() as u64 <= capacity);
            if q + 1 < batches.len() {
                assert_eq!(b.len() as u64, capacity);
            }
        }
    }
}

#[test]
fn unit_edge_buffer_changes_nothing_but_flush_count() {
    // an edge buffer of one edge flushes once per accepted edge and
    // raises the too-small warning, but the edges are unchanged
    let t = tile_4x3();
    let accepts = checker_accepts(t);
    let seeds = vec![1, 2, 3, 4];
    let roomy =
        GenerationParameters::from_seeds(2, 4, seeds.clone(), 4, 1024, true, 0, 0, 1).unwrap();
    let tight = GenerationParameters::from_seeds(2, 4, seeds, 4, 1, true, 0, 0, 1).unwrap();

    let (big_batches, big_warn) = worker(&roomy, t, &accepts);
    let (small_batches, small_warn) = worker(&tight, t, &accepts);

    let big: Vec<(u64, u64)> = big_batches.iter().flatten().copied().collect();
    let small: Vec<(u64, u64)> = small_batches.iter().flatten().copied().collect();
    assert_eq!(big, small);
    assert!(!big_warn);
    assert!(small_warn);
    assert_eq!(small_batches.len(), 6);
}

#[test]
fn degrees_count_left_endpoints() {
    let mut counters = vec![0u64; 4];
    accumulate_degrees(&mut counters, &vec![(0, 1), (2, 3), (0, 2), (3, 3)]);
    assert_eq!(counters, vec![2, 0, 1, 1]);
    accumulate_degrees(&mut counters, &vec![(1, 0)]);
    assert_eq!(counters, vec![2, 1, 1, 1]);
    assert_eq!(degrees_above(&counters, 0), 4);
    assert_eq!(degrees_above(&counters, 1), 1);
    assert_eq!(degrees_above(&counters, 2), 0);
}
