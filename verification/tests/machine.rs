use qt4004core::machine::{hex_digit, same_cells};
use qt4004core::QT4004;

fn program(cells: &[i8]) -> [i8; 16] {
    let mut p = [0i8; 16];
    p[..cells.len()].copy_from_slice(cells);
    p
}

fn loaded(cells: &[i8]) -> QT4004 {
    let mut m = QT4004::new();
    m.load(program(cells));
    m
}

#[test]
fn a_new_machine_is_zero_and_running() {
    let m = QT4004::new();
    assert_eq!((m.r0, m.r1, m.is, m.ip, m.steps), (0, 0, 0, 0, 0));
    assert_eq!(m.memory, [0i8; 16]);
    assert_eq!(m.program, [0i8; 16]);
    assert!(m.running);
    assert_eq!(m.output, "");
}

#[test]
fn the_zero_program_halts_after_one_step() {
    let mut m = QT4004::new();
    m.load([0i8; 16]);
    assert_eq!(m.run(), 1);
    assert_eq!(m.steps, 1);
    assert_eq!(m.output, "");
    assert!(!m.running);
    assert_eq!(m.ip, 1);
}

#[test]
fn sixteen_increments_run_off_the_end_of_memory() {
    let mut m = QT4004::new();
    m.load([1i8; 16]);
    assert_eq!(m.run(), 16);
    assert_eq!(m.steps, 16);
    assert_eq!(m.ip, 16);
    assert_eq!(m.r0, 0);
    assert!(m.running);
}

#[test]
fn a_jump_onto_itself_is_cyclic() {
    let mut m = loaded(&[9, 0]);
    assert_eq!(m.run(), 0);
    assert_eq!(m.steps, 2);
    assert!(m.running);
    assert_eq!(m.ip, 0);
}

#[test]
fn a_cycle_of_two_jumps_is_cut_when_a_state_comes_back() {
    let mut m = loaded(&[8, 0, 9, 0]);
    assert_eq!(m.run(), 0);
    assert_eq!(m.steps, 3);
    assert_eq!(m.ip, 2);
}

#[test]
fn a_loop_that_counts_round_ends() {
    let mut m = loaded(&[1, 8, 0]);
    assert_eq!(m.run(), 33);
    assert_eq!(m.r0, 0);
    assert_eq!(m.ip, 4);
    assert!(!m.running);
}

#[test]
fn output_takes_the_hex_digit_of_r0() {
    let mut m = loaded(&[1, 7, 0]);
    assert_eq!(m.run(), 3);
    assert_eq!(m.output, "1");
    let mut m = loaded(&[10, 10, 7, 10, 15, 7, 0]);
    assert_eq!(m.run(), 5);
    assert_eq!(m.output, "AF");
}

#[test]
fn hex_digits_are_upper_case() {
    let digits: String = (0i8..16).map(hex_digit).collect();
    assert_eq!(digits, "0123456789ABCDEF");
}

#[test]
fn registers_wrap_round_sixteen() {
    let mut m = loaded(&[2, 4, 0]);
    assert_eq!(m.run(), 3);
    assert_eq!((m.r0, m.r1), (15, 15));
    let mut m = loaded(&[11, 3, 6, 7, 4, 5, 7, 0]);
    assert_eq!(m.run(), 7);
    assert_eq!(m.output, "DF");
    assert_eq!((m.r0, m.r1), (15, 2));
}

#[test]
fn jump_if_nonzero_counts_down() {
    let mut m = loaded(&[10, 3, 2, 8, 2, 7, 0]);
    assert_eq!(m.run(), 9);
    assert_eq!(m.output, "0");
    assert_eq!(m.ip, 7);
}

#[test]
fn jump_if_zero_takes_the_operand_as_target() {
    let mut m = loaded(&[9, 4, 0, 0, 1, 7, 0]);
    assert_eq!(m.run(), 4);
    assert_eq!(m.output, "1");
}

#[test]
fn store_writes_a_register_into_memory() {
    let mut m = loaded(&[10, 5, 12, 15, 0]);
    assert_eq!(m.run(), 3);
    assert_eq!(m.memory[15], 5);
    assert_eq!(m.program[15], 0);
    let mut m = loaded(&[11, 6, 13, 14, 0]);
    assert_eq!(m.run(), 3);
    assert_eq!(m.memory[14], 6);
}

#[test]
fn swap_exchanges_a_register_with_memory() {
    let mut m = loaded(&[10, 5, 14, 15, 11, 7, 15, 15, 0]);
    assert_eq!(m.run(), 5);
    assert_eq!((m.r0, m.r1), (0, 5));
    assert_eq!(m.memory[15], 7);
}

#[test]
fn an_operand_in_the_last_cell_is_used() {
    let mut cells = [1i8; 16];
    cells[14] = 10;
    cells[15] = 7;
    let mut m = QT4004::new();
    m.load(cells);
    assert_eq!(m.run(), 15);
    assert_eq!(m.r0, 7);
    assert_eq!(m.ip, 16);
}

#[test]
fn an_operand_past_the_last_cell_makes_a_no_op() {
    let mut cells = [1i8; 16];
    cells[15] = 10;
    let mut m = QT4004::new();
    m.load(cells);
    assert_eq!(m.run(), 16);
    assert_eq!(m.r0, 15);
    assert_eq!(m.ip, 16);
    assert_eq!(m.memory, cells);
}

#[test]
fn fetch_and_execute_make_one_step() {
    let mut m = loaded(&[3, 0]);
    m.fetch();
    assert_eq!(m.is, 3);
    assert_eq!(m.ip, 0);
    m.ip += 1;
    m.execute();
    assert_eq!(m.r1, 1);
    assert_eq!(m.steps, 1);
    assert!(m.running);
}

#[test]
fn the_step_counter_wraps() {
    let mut m = loaded(&[1, 0]);
    m.steps = u64::MAX;
    m.fetch();
    m.ip += 1;
    m.execute();
    assert_eq!(m.steps, 0);
}

#[test]
fn a_halted_machine_does_not_run_again() {
    let mut m = loaded(&[1, 1, 0]);
    assert_eq!(m.run(), 3);
    assert_eq!(m.run(), 3);
    assert_eq!(m.steps, 3);
}

#[test]
fn load_resets_the_machine() {
    let mut m = loaded(&[10, 9, 12, 0, 7, 0]);
    m.run();
    assert_ne!(m.memory, m.program);
    let next = program(&[3, 0]);
    m.load(next);
    assert_eq!((m.r0, m.r1, m.is, m.ip, m.steps), (0, 0, 0, 0, 0));
    assert_eq!(m.memory, next);
    assert_eq!(m.program, next);
    assert_eq!(m.output, "");
    assert!(m.running);
}

#[test]
fn reset_restores_the_program() {
    let mut m = loaded(&[10, 9, 12, 0, 7, 0]);
    let first = m.run();
    m.reset();
    assert_eq!(m.memory, m.program);
    assert_eq!(m.steps, 0);
    assert_eq!(m.output, "");
    assert_eq!(m.run(), first);
}

#[test]
fn machines_are_equal_by_state_alone() {
    let mut a = loaded(&[1, 0]);
    let mut b = loaded(&[1, 0]);
    b.steps = 99;
    b.output.push('x');
    b.running = false;
    b.program = [5i8; 16];
    assert!(a == b);
    a.r1 = 1;
    assert!(a != b);
    a.r1 = 0;
    a.memory[7] = 3;
    assert!(a != b);
}

#[test]
fn same_cells_compares_every_cell() {
    let a = program(&[1, 2, 3]);
    let mut b = a;
    assert!(same_cells(&a, &b));
    b[15] = 1;
    assert!(!same_cells(&a, &b));
}

#[test]
fn state_keys_tell_states_apart() {
    let a = loaded(&[1, 0]);
    let mut b = a.clone();
    assert_eq!(a.state_key(), b.state_key());
    b.steps = 7;
    b.output.push('0');
    assert_eq!(a.state_key(), b.state_key());
    b.ip = 16;
    assert_ne!(a.state_key(), b.state_key());
    b.ip = 0;
    b.memory[15] = 15;
    assert_ne!(a.state_key(), b.state_key());
    b.memory[15] = 0;
    b.is = 1;
    assert_ne!(a.state_key(), b.state_key());
}

#[test]
fn the_largest_state_key_is_below_the_limit() {
    let mut m = QT4004::new();
    m.load([15i8; 16]);
    m.ip = 16;
    m.is = 15;
    m.r0 = 15;
    m.r1 = 15;
    assert_eq!(m.state_key(), qt4004core::snapshot::STATE_LIMIT - 1);
    assert_eq!(QT4004::new().state_key(), 0);
}

#[test]
fn every_program_of_a_range_terminates() {
    let mut m = QT4004::new();
    for seed in 0u128..20000 {
        m.load(qt4004core::program_from_seed(seed));
        let steps = m.run();
        assert!(steps == 0 || steps == m.steps);
    }
}
