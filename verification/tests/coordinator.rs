use qt4004core::{
    program_from_seed, search_batch, Metrics, ServerState, WorkBatch, WorkResult, QT4004,
};

fn result(first_cell: i8, steps: u64) -> WorkResult {
    let mut best_program = [0i8; 16];
    best_program[0] = first_cell;
    WorkResult { best_program, steps }
}

#[test]
fn fresh_metrics_are_empty() {
    let m = Metrics::default();
    assert_eq!(m.total_batches, 0);
    assert_eq!(m.best_steps, 0);
    assert_eq!(m.best_program, [0i8; 16]);
    assert!(m.start_time <= std::time::Instant::now());
}

#[test]
fn a_new_coordinator_starts_at_its_cursor() {
    let state = ServerState::new(40, 8);
    assert_eq!(state.current_seed, 40);
    assert_eq!(state.batch_size, 8);
    assert_eq!(state.metrics.total_batches, 0);
    assert_eq!(state.metrics.best_steps, 0);
}

#[test]
fn batches_follow_each_other_without_gap() {
    let mut state = ServerState::new(5, 7);
    let mut previous = state.next_batch().unwrap();
    assert_eq!(previous, WorkBatch { start: 5, end: 12 });
    for _ in 0..50 {
        let next = state.next_batch().unwrap();
        assert_eq!(next.start, previous.end);
        assert_eq!(next.end, next.start + 7);
        previous = next;
    }
    assert_eq!(state.current_seed, previous.end);
}

#[test]
fn results_between_batches_do_not_move_the_cursor() {
    let mut state = ServerState::new(0, 3);
    let first = state.next_batch().unwrap();
    state.record_result(&result(1, 9));
    state.finish_connection(None);
    state.finish_connection(Some(result(2, 4)));
    let second = state.next_batch().unwrap();
    assert_eq!(second.start, first.end);
}

#[test]
fn no_batch_reaches_beyond_the_largest_seed() {
    let mut state = ServerState::new(u128::MAX - 10, 10);
    assert_eq!(state.next_batch(), Some(WorkBatch { start: u128::MAX - 10, end: u128::MAX }));
    assert_eq!(state.next_batch(), None);
    assert_eq!(state.current_seed, u128::MAX);
    assert_eq!(state.next_batch(), None);
}

#[test]
fn best_is_replaced_only_by_strictly_more_steps() {
    let mut state = ServerState::new(0, 10);
    state.record_result(&result(1, 5));
    assert_eq!(state.metrics.best_steps, 5);
    assert_eq!(state.metrics.best_program[0], 1);
    state.record_result(&result(2, 5));
    assert_eq!(state.metrics.best_steps, 5);
    assert_eq!(state.metrics.best_program[0], 1);
    state.record_result(&result(3, 6));
    assert_eq!(state.metrics.best_steps, 6);
    assert_eq!(state.metrics.best_program[0], 3);
    state.record_result(&result(4, 0));
    assert_eq!(state.metrics.best_steps, 6);
    assert_eq!(state.metrics.best_program[0], 3);
    assert_eq!(state.metrics.total_batches, 4);
}

#[test]
fn best_steps_never_go_down() {
    let mut state = ServerState::new(0, 10);
    let mut last = 0;
    let mut largest = 0;
    for steps in [3u64, 0, 7, 7, 2, 100, 99, 0, 100, 101, 1] {
        state.record_result(&result(0, steps));
        assert!(state.metrics.best_steps >= last);
        largest = largest.max(steps);
        assert_eq!(state.metrics.best_steps, largest);
        last = state.metrics.best_steps;
    }
    assert_eq!(state.metrics.total_batches, 11);
}

#[test]
fn a_lost_reply_changes_nothing() {
    let mut state = ServerState::new(0, 10);
    let batch = state.next_batch().unwrap();
    state.finish_connection(Some(result(1, 4)));
    let started = state.metrics.start_time;
    state.finish_connection(None);
    assert_eq!(state.metrics.total_batches, 1);
    assert_eq!(state.metrics.best_steps, 4);
    assert_eq!(state.metrics.start_time, started);
    assert_eq!(state.current_seed, batch.end);
}

#[test]
fn the_clock_is_kept() {
    let mut state = ServerState::new(0, 10);
    let started = state.metrics.start_time;
    state.record_result(&result(1, 4));
    state.next_batch();
    assert_eq!(state.metrics.start_time, started);
    assert_eq!(state.snapshot().start_time, started);
}

#[test]
fn snapshot_copies_the_metrics() {
    let mut state = ServerState::new(0, 10);
    state.record_result(&result(6, 12));
    let seen = state.snapshot();
    state.record_result(&result(7, 13));
    assert_eq!(seen.total_batches, 1);
    assert_eq!(seen.best_steps, 12);
    assert_eq!(seen.best_program[0], 6);
    assert_eq!(state.snapshot().best_steps, 13);
}

#[test]
fn first_batch_is_searched_and_the_second_follows() {
    let mut state = ServerState::new(0, 10);
    let first = state.next_batch().unwrap();
    assert_eq!(first, WorkBatch { start: 0, end: 10 });

    let mut processor = QT4004::new();
    let found = search_batch(&mut processor, &first, 100000);
    let mut largest = 0;
    let mut check = QT4004::new();
    for seed in 0u128..10 {
        check.load(program_from_seed(seed));
        largest = largest.max(check.run());
    }
    assert_eq!(found.steps, largest);
    assert_eq!(found.steps, 2);
    assert_eq!(found.best_program, program_from_seed(1));

    state.finish_connection(Some(found));
    assert_eq!(state.metrics.best_steps, largest);
    assert_eq!(state.metrics.best_program, program_from_seed(1));
    assert_eq!(state.metrics.total_batches, 1);

    assert_eq!(state.next_batch(), Some(WorkBatch { start: 10, end: 20 }));
}
