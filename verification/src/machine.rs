//! The machine: four registers and sixteen cells of memory that hold both the
//! program and its data. One step fetches the cell under the instruction
//! pointer, moves the pointer on and executes what was fetched.

use crate::encoding::{all_digits, modulo, valid_program};
use crate::platform::push_char;
use vstd::prelude::*;

verus! {

/// The machine as a mathematical value.
pub struct Machine {
    /// Instruction register: the opcode fetched last.
    pub is: int,
    /// Instruction pointer: the cell that is fetched next.
    pub ip: int,
    pub r0: int,
    pub r1: int,
    pub memory: Seq<i8>,
    /// The program that `reset` copies into memory.
    pub program: Seq<i8>,
    pub running: bool,
    /// Steps executed, counted modulo `2^64`.
    pub steps: nat,
    pub output: Seq<char>,
}

/// What cycle detection compares: two machines are in the same state when
/// these five agree. The step counter and the output do not count.
pub struct Snapshot {
    pub is: int,
    pub ip: int,
    pub r0: int,
    pub r1: int,
    pub memory: Seq<i8>,
}

/// The sixteen zero cells.
pub open spec fn zero_cells() -> Seq<i8> {
    Seq::new(16, |i: int| 0i8)
}

/// The upper-case hexadecimal digit of a value below sixteen.
pub open spec fn spec_hex_digit(v: int) -> char {
    seq![
        '0',
        '1',
        '2',
        '3',
        '4',
        '5',
        '6',
        '7',
        '8',
        '9',
        'A',
        'B',
        'C',
        'D',
        'E',
        'F',
    ][v]
}

/// The step counter after one more step.
pub open spec fn spec_count(steps: nat) -> nat {
    if steps >= u64::MAX {
        0
    } else {
        steps + 1
    }
}

impl Machine {
    /// Registers and pointer are in range, memory and program hold digits.
    pub open spec fn wf(self) -> bool {
        &&& 0 <= self.is < 16
        &&& 0 <= self.ip <= 16
        &&& 0 <= self.r0 < 16
        &&& 0 <= self.r1 < 16
        &&& valid_program(self.memory)
        &&& valid_program(self.program)
        &&& self.steps <= u64::MAX
    }

    /// The machine goes on: it has not halted and its pointer is on a cell.
    pub open spec fn live(self) -> bool {
        self.running && 0 <= self.ip < 16
    }

    pub open spec fn snapshot(self) -> Snapshot {
        Snapshot { is: self.is, ip: self.ip, r0: self.r0, r1: self.r1, memory: self.memory }
    }

    /// A fresh machine: everything zero, running, nothing printed.
    pub open spec fn fresh() -> Machine {
        Machine {
            is: 0,
            ip: 0,
            r0: 0,
            r1: 0,
            memory: zero_cells(),
            program: zero_cells(),
            running: true,
            steps: 0,
            output: Seq::empty(),
        }
    }

    /// The machine ready to run `program` from its first cell.
    pub open spec fn loaded(program: Seq<i8>) -> Machine {
        Machine {
            is: 0,
            ip: 0,
            r0: 0,
            r1: 0,
            memory: program,
            program,
            running: true,
            steps: 0,
            output: Seq::empty(),
        }
    }

    /// The cell under the pointer goes to the instruction register.
    pub open spec fn fetch(self) -> Machine {
        Machine { is: self.memory[self.ip] as int, ..self }
    }

    /// The pointer moves to the next cell.
    pub open spec fn advance(self) -> Machine {
        Machine { ip: self.ip + 1, ..self }
    }

    /// The effect of a two-cell instruction whose operand is `arg`; the
    /// pointer stands on the operand.
    pub open spec fn execute_with_operand(self, arg: int) -> Machine {
        if self.is == 8 {
            if self.r0 != 0 {
                Machine { ip: arg, ..self }
            } else {
                self.advance()
            }
        } else if self.is == 9 {
            if self.r0 == 0 {
                Machine { ip: arg, ..self }
            } else {
                self.advance()
            }
        } else if self.is == 10 {
            Machine { r0: arg, ..self }.advance()
        } else if self.is == 11 {
            Machine { r1: arg, ..self }.advance()
        } else if self.is == 12 {
            Machine { memory: self.memory.update(arg, self.r0 as i8), ..self }.advance()
        } else if self.is == 13 {
            Machine { memory: self.memory.update(arg, self.r1 as i8), ..self }.advance()
        } else if self.is == 14 {
            Machine {
                r0: self.memory[arg] as int,
                memory: self.memory.update(arg, self.r0 as i8),
                ..self
            }.advance()
        } else {
            Machine {
                r1: self.memory[arg] as int,
                memory: self.memory.update(arg, self.r1 as i8),
                ..self
            }.advance()
        }
    }

    /// The effect of the instruction in the instruction register, the counter
    /// left aside. Opcodes 8 to 15 take the cell under the pointer as their
    /// operand; where the pointer has left the memory they do nothing.
    pub open spec fn effect(self) -> Machine {
        if self.is == 0 {
            Machine { running: false, ..self }
        } else if self.is == 1 {
            Machine { r0: (self.r0 + 1) % 16, ..self }
        } else if self.is == 2 {
            Machine { r0: (self.r0 - 1) % 16, ..self }
        } else if self.is == 3 {
            Machine { r1: (self.r1 + 1) % 16, ..self }
        } else if self.is == 4 {
            Machine { r1: (self.r1 - 1) % 16, ..self }
        } else if self.is == 5 {
            Machine { r0: (self.r0 + self.r1) % 16, ..self }
        } else if self.is == 6 {
            Machine { r0: (self.r0 - self.r1) % 16, ..self }
        } else if self.is == 7 {
            Machine { output: self.output.push(spec_hex_digit(self.r0)), ..self }
        } else if 8 <= self.is <= 15 && 0 <= self.ip < 16 {
            self.execute_with_operand(self.memory[self.ip] as int)
        } else {
            self
        }
    }

    /// Executes the fetched instruction and counts the step.
    pub open spec fn execute(self) -> Machine {
        Machine { steps: spec_count(self.steps), ..self.effect() }
    }

    /// One whole step: fetch, advance, execute.
    pub open spec fn step(self) -> Machine {
        self.fetch().advance().execute()
    }
}

/// A step of a well-formed live machine leaves it well-formed.
pub proof fn lemma_step_wf(m: Machine)
    requires
        m.wf(),
        m.live(),
    ensures
        m.step().wf(),
{
    let f = m.fetch().advance();
    assert(0 <= f.is < 16);
    if 8 <= f.is <= 15 && f.ip < 16 {
        let arg = f.memory[f.ip] as int;
        assert(0 <= arg < 16);
        assert(all_digits(f.memory.update(arg, f.r0 as i8)));
        assert(all_digits(f.memory.update(arg, f.r1 as i8)));
    }
}

/// The executable machine.
pub struct QT4004 {
    pub r0: i8,
    pub r1: i8,
    pub is: i8,
    pub ip: i8,
    pub steps: u64,
    pub memory: [i8; 16],
    pub program: [i8; 16],
    pub running: bool,
    pub output: String,
}

impl View for QT4004 {
    type V = Machine;

    open spec fn view(&self) -> Machine {
        Machine {
            is: self.is as int,
            ip: self.ip as int,
            r0: self.r0 as int,
            r1: self.r1 as int,
            memory: self.memory@,
            program: self.program@,
            running: self.running,
            steps: self.steps as nat,
            output: self.output@,
        }
    }
}

impl Clone for QT4004 {
    /// A copy with every field as it is, counter and output included.
    fn clone(&self) -> (copy: Self)
        ensures
            copy == *self,
    {
        Self {
            r0: self.r0,
            r1: self.r1,
            is: self.is,
            ip: self.ip,
            steps: self.steps,
            memory: self.memory,
            program: self.program,
            running: self.running,
            output: self.output.clone(),
        }
    }
}

/// Machines are equal when they are in the same state: instruction register,
/// pointer, both registers and memory agree. Counter, output and program do
/// not count.
impl PartialEq for QT4004 {
    fn eq(&self, other: &Self) -> (r: bool) {
        self.is == other.is && self.ip == other.ip && self.r0 == other.r0 && self.r1 == other.r1
            && same_cells(&self.memory, &other.memory)
    }
}

impl vstd::std_specs::cmp::PartialEqSpecImpl for QT4004 {
    open spec fn obeys_eq_spec() -> bool {
        true
    }

    open spec fn eq_spec(&self, other: &Self) -> bool {
        self@.snapshot() == other@.snapshot()
    }
}

impl Eq for QT4004 {}

/// Whether two memories hold the same cells.
pub fn same_cells(a: &[i8; 16], b: &[i8; 16]) -> (r: bool)
    ensures
        r == (a@ == b@),
{
    let mut i: usize = 0;
    while i < 16
        invariant
            i <= 16,
            forall|j: int| 0 <= j < i ==> a@[j] == b@[j],
        decreases 16 - i,
    {
        if a[i] != b[i] {
            return false;
        }
        i += 1;
    }
    assert(a@ =~= b@);
    true
}

/// The upper-case hexadecimal digit of `v`.
pub fn hex_digit(v: i8) -> (c: char)
    requires
        0 <= v < 16,
    ensures
        c == spec_hex_digit(v as int),
{
    match v {
        0 => '0',
        1 => '1',
        2 => '2',
        3 => '3',
        4 => '4',
        5 => '5',
        6 => '6',
        7 => '7',
        8 => '8',
        9 => '9',
        10 => 'A',
        11 => 'B',
        12 => 'C',
        13 => 'D',
        14 => 'E',
        _ => 'F',
    }
}

impl QT4004 {
    /// A fresh machine with the all-zero program.
    pub fn new() -> (m: Self)
        ensures
            m@ == Machine::fresh(),
            m@.wf(),
    {
        let m = Self {
            r0: 0,
            r1: 0,
            is: 0,
            ip: 0,
            steps: 0,
            memory: [0;16],
            program: [0;16],
            running: true,
            output: String::new(),
        };
        assert(m.memory@ =~= zero_cells());
        assert(m.program@ =~= zero_cells());
        m
    }

    /// Takes `program` and resets the machine to run it. The machine is
    /// well-formed afterwards exactly when the program is valid.
    pub fn load(&mut self, program: [i8; 16])
        ensures
            final(self)@ == Machine::loaded(program@),
            final(self)@.wf() <==> valid_program(program@),
    {
        self.program = program;
        self.reset();
    }

    /// Back to the start of the program that the machine holds.
    pub fn reset(&mut self)
        ensures
            final(self)@ == Machine::loaded(old(self)@.program),
            final(self)@.wf() <==> valid_program(old(self)@.program),
    {
        self.r0 = 0;
        self.r1 = 0;
        self.is = 0;
        self.ip = 0;
        self.memory = self.program;
        self.output = String::new();
        self.steps = 0;
        self.running = true;
    }

    /// Reads the cell under the pointer into the instruction register.
    pub fn fetch(&mut self)
        requires
            0 <= old(self)@.ip < 16,
        ensures
            final(self)@ == old(self)@.fetch(),
    {
        self.is = self.memory[self.ip as usize];
    }

    /// Executes the instruction in the instruction register and counts one
    /// step. The pointer stands behind the instruction, on its operand if it
    /// has one. The step counter wraps round at `2^64`.
    pub fn execute(&mut self)
        requires
            old(self)@.wf(),
        ensures
            final(self)@ == old(self)@.execute(),
            final(self)@.wf(),
    {
        match self.is {
            0 => {
                self.running = false;
            },
            1 => {
                self.r0 = modulo(self.r0 + 1, 16);
            },
            2 => {
                self.r0 = modulo(self.r0 - 1, 16);
            },
            3 => {
                self.r1 = modulo(self.r1 + 1, 16);
            },
            4 => {
                self.r1 = modulo(self.r1 - 1, 16);
            },
            5 => {
                self.r0 = modulo(self.r0 + self.r1, 16);
            },
            6 => {
                self.r0 = modulo(self.r0 - self.r1, 16);
            },
            7 => {
                push_char(&mut self.output, hex_digit(self.r0));
            },
            _ => {
                if self.ip < 16 {
                    let arg: i8 = self.memory[self.ip as usize];
                    let at: usize = arg as usize;
                    assert(0 <= arg < 16);
                    match self.is {
                        8 => {
                            if self.r0 != 0 {
                                self.ip = arg;
                            } else {
                                self.ip += 1;
                            }
                        },
                        9 => {
                            if self.r0 == 0 {
                                self.ip = arg;
                            } else {
                                self.ip += 1;
                            }
                        },
                        10 => {
                            self.r0 = arg;
                            self.ip += 1;
                        },
                        11 => {
                            self.r1 = arg;
                            self.ip += 1;
                        },
                        12 => {
                            self.memory[at] = self.r0;
                            self.ip += 1;
                        },
                        13 => {
                            self.memory[at] = self.r1;
                            self.ip += 1;
                        },
                        14 => {
                            let held: i8 = self.memory[at];
                            self.memory[at] = self.r0;
                            self.r0 = held;
                            self.ip += 1;
                        },
                        _ => {
                            let held: i8 = self.memory[at];
                            self.memory[at] = self.r1;
                            self.r1 = held;
                            self.ip += 1;
                        },
                    }
                }
            },
        }
        self.steps = self.steps.wrapping_add(1);
        assert(all_digits(self.memory@));
    }
}

} // verus!
