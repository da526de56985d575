use qt4004core::{modulo, program_from_seed};

#[test]
fn seed_zero_is_the_zero_program() {
    assert_eq!(program_from_seed(0), [0i8; 16]);
}

#[test]
fn digits_come_least_significant_first() {
    let program = program_from_seed(0x123);
    let mut expected = [0i8; 16];
    expected[0] = 3;
    expected[1] = 2;
    expected[2] = 1;
    assert_eq!(program, expected);
}

#[test]
fn every_digit_is_read() {
    let program = program_from_seed(0xFEDC_BA98_7654_3210);
    assert_eq!(program, [0, 1, 2, 3, 4, 5, 6, 7, 8, 9, 10, 11, 12, 13, 14, 15]);
}

#[test]
fn largest_seed_below_the_limit_is_all_fifteens() {
    assert_eq!(program_from_seed(u64::MAX as u128), [15i8; 16]);
}

#[test]
fn digits_above_the_sixteenth_do_not_count() {
    assert_eq!(program_from_seed(1u128 << 64), [0i8; 16]);
    assert_eq!(program_from_seed((1u128 << 64) + 0x2A), program_from_seed(0x2A));
    assert_eq!(program_from_seed(u128::MAX), [15i8; 16]);
}

#[test]
fn encoding_is_deterministic() {
    for seed in [0u128, 1, 15, 16, 255, 4096, 0xDEAD_BEEF, u64::MAX as u128] {
        assert_eq!(program_from_seed(seed), program_from_seed(seed));
    }
}

#[test]
fn different_seeds_give_different_programs() {
    let high = [0xFFFF, 0x1_0000, 0xFFFF_FFFF, 0x1_0000_0000, u64::MAX as u128 - 1, u64::MAX as u128];
    let seeds: Vec<u128> = (0u128..600).chain(high).collect();
    for (i, a) in seeds.iter().enumerate() {
        for b in seeds.iter().skip(i + 1) {
            assert_ne!(program_from_seed(*a), program_from_seed(*b), "seeds {a} and {b}");
        }
    }
}

#[test]
fn every_cell_is_a_digit() {
    for seed in (0u128..5000).chain([u64::MAX as u128, u128::MAX, 1u128 << 100]) {
        for cell in program_from_seed(seed) {
            assert!((0..16).contains(&cell));
        }
    }
}

#[test]
fn modulo_is_the_remainder_for_powers_of_two() {
    assert_eq!(modulo(0, 16), 0);
    assert_eq!(modulo(15, 16), 15);
    assert_eq!(modulo(16, 16), 0);
    assert_eq!(modulo(17, 16), 1);
    assert_eq!(modulo(30, 16), 14);
    assert_eq!(modulo(127, 16), 15);
    assert_eq!(modulo(5, 1), 0);
    assert_eq!(modulo(5, 2), 1);
    assert_eq!(modulo(100, 64), 36);
}

#[test]
fn modulo_of_a_negative_value_is_not_negative() {
    assert_eq!(modulo(-1, 16), 15);
    assert_eq!(modulo(-15, 16), 1);
    assert_eq!(modulo(-16, 16), 0);
    assert_eq!(modulo(-128, 16), 0);
    assert_eq!(modulo(-3, 4), 1);
}

#[test]
fn modulo_masks_with_modulus_less_one() {
    assert_eq!(modulo(7, 6), 5);
    assert_eq!(modulo(12, 10), 8);
    assert_eq!(modulo(9, 0), 9);
    assert_eq!(modulo(-1, 0), -1);
    assert_eq!(modulo(100, 127), 100);
}
