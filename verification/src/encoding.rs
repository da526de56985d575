//! Seeds and programs: the base-16 digits of a seed, least significant first,
//! are the sixteen cells of its program.

use vstd::arithmetic::div_mod::{lemma_div_denominator, lemma_mod_breakdown};
use vstd::prelude::*;

verus! {

/// `16^n`.
pub open spec fn pow16(n: nat) -> nat
    decreases n,
{
    if n == 0 {
        1
    } else {
        16 * pow16((n - 1) as nat)
    }
}

/// Digit `i` of `seed` written in base 16, digit 0 being the least significant.
pub open spec fn spec_digit(seed: nat, i: nat) -> nat {
    (seed / pow16(i)) % 16
}

/// The first `n` base-16 digits of `seed`, least significant first.
pub open spec fn spec_digits(seed: nat, n: nat) -> Seq<i8> {
    Seq::new(n, |i: int| spec_digit(seed, i as nat) as i8)
}

/// The program that a seed stands for.
pub open spec fn spec_program(seed: nat) -> Seq<i8> {
    spec_digits(seed, 16)
}

/// Every cell is a base-16 digit.
pub open spec fn all_digits(cells: Seq<i8>) -> bool {
    forall|i: int| 0 <= i < cells.len() ==> 0 <= #[trigger] cells[i] < 16
}

/// A program has sixteen cells, each a base-16 digit.
pub open spec fn valid_program(cells: Seq<i8>) -> bool {
    cells.len() == 16 && all_digits(cells)
}

/// The number whose base-16 digits, least significant first, are `cells`.
pub open spec fn spec_value(cells: Seq<i8>) -> nat
    decreases cells.len(),
{
    if cells.len() == 0 {
        0
    } else {
        (cells[0] as nat) + 16 * spec_value(cells.drop_first())
    }
}

/// True for the moduli on which masking with `modulus - 1` is the remainder.
pub open spec fn is_power_of_two(modulus: i8) -> bool {
    modulus == 1 || modulus == 2 || modulus == 4 || modulus == 8 || modulus == 16 || modulus
        == 32 || modulus == 64
}

/// Masks `value` with `modulus - 1`. For a modulus that is a power of two this
/// is the non-negative remainder of `value` by `modulus`, also for negative values.
pub fn modulo(value: i8, modulus: i8) -> (r: i8)
    requires
        modulus > i8::MIN,
    ensures
        r == value & ((modulus - 1) as i8),
        is_power_of_two(modulus) ==> r == (value as int) % (modulus as int),
{
    let mask: i8 = modulus - 1;
    proof {
        if is_power_of_two(modulus) {
            assert((value & mask) == (value as int) % (modulus as int)) by (bit_vector)
                requires
                    mask == modulus - 1,
                    modulus == 1 || modulus == 2 || modulus == 4 || modulus == 8 || modulus == 16
                        || modulus == 32 || modulus == 64,
            ;
        }
    }
    value & mask
}

/// `pow16` is positive, and its values at 1 and 16.
pub proof fn lemma_pow16(n: nat)
    ensures
        pow16(n) > 0,
        pow16(n + 1) == 16 * pow16(n),
        pow16(0) == 1,
        pow16(1) == 16,
        pow16(16) == 0x1_0000_0000_0000_0000,
    decreases n,
{
    if n > 0 {
        lemma_pow16((n - 1) as nat);
    }
    reveal_with_fuel(pow16, 17);
}

/// Dropping the lowest digit of a seed shifts all its other digits down by one.
pub proof fn lemma_digit_shift(seed: nat, i: nat)
    ensures
        spec_digit(seed, i + 1) == spec_digit(seed / 16, i),
{
    lemma_pow16(i);
    lemma_div_denominator(seed as int, 16, pow16(i) as int);
    assert(16 * pow16(i) == pow16(i + 1));
}

/// The seed's digits give the seed back, as far as they reach.
pub proof fn lemma_value_of_digits(seed: nat, n: nat)
    ensures
        spec_value(spec_digits(seed, n)) == seed % pow16(n),
    decreases n,
{
    let cells = spec_digits(seed, n);
    if n == 0 {
        assert(pow16(0) == 1);
    } else {
        let m = (n - 1) as nat;
        assert(cells.drop_first() =~= spec_digits(seed / 16, m)) by {
            assert forall|i: int| 0 <= i < m implies cells.drop_first()[i] == spec_digits(
                seed / 16,
                m,
            )[i] by {
                lemma_digit_shift(seed, i as nat);
            }
        }
        lemma_value_of_digits(seed / 16, m);
        lemma_pow16(m);
        lemma_mod_breakdown(seed as int, 16, pow16(m) as int);
        assert(pow16(0) == 1);
        assert(spec_digit(seed, 0) == seed % 16);
        assert(cells[0] == (seed % 16) as i8);
        assert(pow16(n) == 16 * pow16(m));
    }
}

/// `pow16` grows with its argument.
pub proof fn lemma_pow16_monotone(a: nat, b: nat)
    requires
        a <= b,
    ensures
        pow16(a) <= pow16(b),
    decreases b,
{
    lemma_pow16(a);
    if a < b {
        lemma_pow16_monotone(a, (b - 1) as nat);
        lemma_pow16((b - 1) as nat);
    }
}

/// `n` digits stand for a number below `16^n`.
pub proof fn lemma_value_bound(cells: Seq<i8>)
    requires
        all_digits(cells),
    ensures
        spec_value(cells) < pow16(cells.len()),
    decreases cells.len(),
{
    if cells.len() > 0 {
        let rest = cells.drop_first();
        assert forall|i: int| 0 <= i < rest.len() implies 0 <= #[trigger] rest[i] < 16 by {
            assert(rest[i] == cells[i + 1]);
        }
        lemma_value_bound(rest);
        lemma_pow16(rest.len());
    }
}

/// Digit sequences of one length that stand for the same number are equal.
pub proof fn lemma_value_injective(a: Seq<i8>, b: Seq<i8>)
    requires
        a.len() == b.len(),
        all_digits(a),
        all_digits(b),
        spec_value(a) == spec_value(b),
    ensures
        a == b,
    decreases a.len(),
{
    if a.len() > 0 {
        let ra = a.drop_first();
        let rb = b.drop_first();
        assert forall|i: int| 0 <= i < ra.len() implies 0 <= #[trigger] ra[i] < 16 by {
            assert(ra[i] == a[i + 1]);
        }
        assert forall|i: int| 0 <= i < rb.len() implies 0 <= #[trigger] rb[i] < 16 by {
            assert(rb[i] == b[i + 1]);
        }
        assert(0 <= a[0] < 16 && 0 <= b[0] < 16);
        assert(a[0] == b[0] && spec_value(ra) == spec_value(rb));
        lemma_value_injective(ra, rb);
        assert(a =~= seq![a[0]] + ra);
        assert(b =~= seq![b[0]] + rb);
    } else {
        assert(a =~= b);
    }
}

/// Different seeds below `16^16` have different programs.
pub proof fn lemma_encoding_injective(s1: nat, s2: nat)
    requires
        s1 < pow16(16),
        s2 < pow16(16),
        s1 != s2,
    ensures
        spec_program(s1) != spec_program(s2),
{
    lemma_value_of_digits(s1, 16);
    lemma_value_of_digits(s2, 16);
    lemma_pow16(16);
}

/// Below `16^16` a seed can be read back from its program.
pub proof fn lemma_encoding_round_trip(seed: nat)
    requires
        seed < pow16(16),
    ensures
        valid_program(spec_program(seed)),
        spec_value(spec_program(seed)) == seed,
{
    lemma_value_of_digits(seed, 16);
    lemma_pow16(16);
}

/// The program of a seed: its sixteen lowest base-16 digits, least significant
/// first. Digits above the sixteenth do not count.
pub fn program_from_seed(seed: u128) -> (program: [i8; 16])
    ensures
        program@ == spec_program(seed as nat),
        valid_program(program@),
{
    let mut program: [i8; 16] = [0;16];
    let mut rest: u128 = seed;
    let mut i: usize = 0;
    proof {
        assert(pow16(0) == 1);
    }
    while i < 16
        invariant
            i <= 16,
            rest == (seed as nat) / pow16(i as nat),
            forall|j: int| 0 <= j < i ==> program@[j] == spec_digit(seed as nat, j as nat) as i8,
        decreases 16 - i,
    {
        program[i] = (rest % 16) as i8;
        proof {
            lemma_pow16(i as nat);
            lemma_div_denominator(seed as int, pow16(i as nat) as int, 16);
            assert(pow16(i as nat) * 16 == pow16((i + 1) as nat));
        }
        rest = rest / 16;
        i += 1;
    }
    assert(program@ =~= spec_program(seed as nat));
    program
}

} // verus!
