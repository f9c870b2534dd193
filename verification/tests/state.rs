use girg_generator::params::GenerationParameters;
use girg_generator::state::CPUThreadState;
use girg_generator::tiles::Tile;
use girg_generator::worker::worker_function;

fn stripe_accepts(t: Tile, modulus: u64) -> Vec<bool> {
    let w = t.end_x - t.start_x + 1;
    let h = t.end_y - t.start_y + 1;
    (0..w * h).map(|k| k % modulus == 0).collect()
}

#[test]
fn resumable_walk_equals_uninterrupted_walk() {
    // whatever the buffer size, the resumable walk of a tile emits the
    // same edges as the direct walk
    let t = Tile { start_x: 4, start_y: 2, end_x: 13, end_y: 8 };
    for modulus in [1u64, 2, 3, 7] {
        let accepts = stripe_accepts(t, modulus);
        let direct = worker_function(t, &accepts);
        for edges_size in [1u64, 2, 5, 1000] {
            let mut state = CPUThreadState::new(edges_size, 3);
            let resumed = state.run_tile_to_completion(1, t, &accepts);
            assert_eq!(resumed, direct, "buffer of {} edges", edges_size);
        }
    }
}

#[test]
fn suspended_thread_stops_on_the_unstored_edge() {
    // a 2-cell buffer on a tile whose every cell is accepted: the first
    // run stores two edges and parks the thread on the third cell
    let t = Tile { start_x: 0, start_y: 0, end_x: 2, end_y: 1 };
    let accepts = vec![true; 6];
    let mut state = CPUThreadState::new(2, 1);
    state.assign_tile(0, t);
    state.run_thread(0, t, &accepts);
    assert!(!state.get_done(0));
    assert_eq!((state.get_x(0), state.get_y(0)), (2, 0));
    assert_eq!(state.edges_iter(0), vec![(0, 0), (1, 0)]);

    // draining and relaunching resumes at that cell
    let drained = state.drain_thread(0);
    assert_eq!(drained, vec![(0, 0), (1, 0)]);
    state.run_thread(0, t, &accepts);
    assert!(!state.get_done(0));
    assert_eq!((state.get_x(0), state.get_y(0)), (1, 1));
    assert_eq!(state.edges_iter(0), vec![(2, 0), (0, 1)]);
}

#[test]
fn finished_thread_parks_on_the_last_cell() {
    let t = Tile { start_x: 4, start_y: 8, end_x: 7, end_y: 9 };
    let accepts = vec![false; 8];
    let mut state = CPUThreadState::new(4, 2);
    state.assign_tile(0, t);
    state.run_thread(0, t, &accepts);
    assert!(state.get_done(0));
    assert_eq!((state.get_x(0), state.get_y(0)), (7, 9));
    assert_eq!(state.get_edge_count(0), 0);
}

#[test]
fn driver_recovers_the_finished_tile_from_the_parked_position() {
    // the invariant the driver relies on: a finished thread's position
    // maps back to its tile
    let p = GenerationParameters::from_seeds(2, 10, vec![1, 2, 3, 4], 4, 16, true, 0, 0, 1)
        .unwrap();
    let mut it = p.tiles();
    let mut state = CPUThreadState::new(16, 1);
    while let Some(t) = it.next() {
        let w = t.end_x - t.start_x + 1;
        let h = t.end_y - t.start_y + 1;
        let accepts = vec![true; (w * h) as usize];
        state.assign_tile(0, t);
        loop {
            state.run_thread(0, t, &accepts);
            state.drain_thread(0);
            if state.get_done(0) {
                break;
            }
        }
        let recovered = p.pos_to_tile(state.get_x(0), state.get_y(0));
        assert_eq!(recovered, t);
    }
}

#[test]
fn threads_do_not_disturb_each_other() {
    let t0 = Tile { start_x: 0, start_y: 0, end_x: 1, end_y: 1 };
    let t1 = Tile { start_x: 2, start_y: 2, end_x: 3, end_y: 3 };
    let accepts = vec![true; 4];
    let mut state = CPUThreadState::new(8, 2);
    state.assign_tile(0, t0);
    state.assign_tile(1, t1);
    state.run_thread(0, t0, &accepts);
    state.run_thread(1, t1, &accepts);
    assert_eq!(state.edges_iter(0), vec![(0, 0), (1, 0), (0, 1), (1, 1)]);
    assert_eq!(state.edges_iter(1), vec![(2, 2), (3, 2), (2, 3), (3, 3)]);
}
